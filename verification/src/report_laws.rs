//! What holds of every report: its figures agree with each other, its lines
//! have a source in the data, and its sections are raised by facts alone.

use vstd::prelude::*;
use vstd::utf8::*;

use crate::audit::{tail, AuditEntry};
use crate::intent::{label_text, Intent, BREAKER_RULE};
use crate::report::{
    backed_up, backup_id, basename, blocked_command, can_run, count, cutoff, decided, dedup,
    directory, escalated, event, impact, insured, intent_label, is_top, leaders, lemma_filter_all, lookup, mark_of,
    marked, of_session, opt, pairs, ran, reports, risk, risk_label_of, rolled_back, rolls_up,
    scoped_session, selected, session_id, since, tripped, tripped_label, BackupRecord, Outcome,
    Report, Rollup, Scope, READ_LIMIT,
};
use crate::report_text::{
    blocked_markdown, can_shorten, causes, insight, insight_markdown, insight_section,
    insurance_markdown, insurance_section, intents_markdown, intents_section, markdown_text,
    recent_section, risk_section, risk_text, rollup_markdown, rollup_section, session_markdown,
    session_section, short_text, terminal_text, INSIGHT_THRESHOLD,
};
use crate::tally::{
    ahead, counts, is_ranking, law_counts_add_up, law_ranking_is_unique, lemma_times_bound, times,
    total,
};
use crate::text::{figure, texts};
use crate::ui::mark_text;
use crate::ui_laws::{
    clear, escaping, law_colour_keeps_text, lemma_clear_shows, lemma_codes, lemma_visible_add,
    shows, visible,
};

verus! {

/// Every kind of entry is at most all entries.
proof fn lemma_count_bound(es: Seq<AuditEntry>, p: spec_fn(AuditEntry) -> bool)
    ensures
        count(es, p) <= es.len(),
    decreases es.len(),
{
    reveal(Seq::filter);
    if es.len() > 0 {
        lemma_count_bound(es.drop_last(), p);
    }
}

proof fn lemma_words_differ()
    ensures
        "allow"@ != "ask"@,
        "allow"@ != "deny"@,
        "ask"@ != "deny"@,
{
    reveal_strlit("allow");
    reveal_strlit("ask");
    reveal_strlit("deny");
    assert("allow"@[1] == 'l' && "ask"@[1] == 's' && "deny"@[1] == 'e');
}

proof fn lemma_decisions_are_disjoint(es: Seq<AuditEntry>)
    ensures
        count(es, decided("allow"@)) + count(es, decided("ask"@)) + count(es, decided("deny"@))
            <= es.len(),
    decreases es.len(),
{
    reveal(Seq::filter);
    if es.len() > 0 {
        lemma_words_differ();
        lemma_decisions_are_disjoint(es.drop_last());
    }
}

proof fn lemma_blocked_count(es: Seq<AuditEntry>)
    ensures
        es.filter_map(blocked_command()).len() == count(es, decided("deny"@)),
    decreases es.len(),
{
    reveal(Seq::filter);
    if es.len() > 0 {
        lemma_blocked_count(es.drop_last());
    }
}

/// The figures of a report agree: the decisions are among all commands, the
/// blocked commands are the denials, what flowed on its own is what was
/// allowed, and the risk score comes from its own inputs.
pub proof fn law_report_adds_up(r: Report, es: Seq<AuditEntry>, manifest: Seq<BackupRecord>)
    requires
        reports(r, es, manifest),
    ensures
        r.allow + r.ask + r.deny <= r.total,
        r.auto_flow == r.allow,
        r.blocked@.len() == r.deny,
        r.escalated <= r.total,
        r.rollbacks <= r.total,
        r.breaker_trips <= r.total,
        r.risk_score == r.deny * 3 + r.escalated * 2 + r.ask,
{
    lemma_decisions_are_disjoint(es);
    lemma_blocked_count(es);
    assert(texts(r.blocked@).len() == r.blocked@.len());
    lemma_count_bound(es, escalated());
    lemma_count_bound(es, rolled_back());
    lemma_count_bound(es, tripped());
}

/// Whatever `filter_map` keeps comes from an element.
proof fn lemma_kept_from<A, B>(s: Seq<A>, f: spec_fn(A) -> Option<B>, i: int) -> (k: int)
    requires
        0 <= i < s.filter_map(f).len(),
    ensures
        0 <= k < s.len(),
        f(s[k]) == Some(s.filter_map(f)[i]),
    decreases s.len(),
{
    let less = s.drop_last();
    if i < less.filter_map(f).len() {
        let k = lemma_kept_from(less, f, i);
        assert(less[k] == s[k]);
        k
    } else {
        s.len() - 1
    }
}

/// Reducing runs keeps the last element, keeps only what was there, and leaves
/// no two equal neighbours.
pub proof fn lemma_dedup<T>(s: Seq<T>)
    ensures
        s.len() > 0 ==> dedup(s).len() > 0 && dedup(s).last() == s.last(),
        forall|i: int| 0 <= i < dedup(s).len() ==> s.contains(#[trigger] dedup(s)[i]),
        forall|i: int, j: int|
            0 <= i && j == i + 1 && j < dedup(s).len() ==> #[trigger] dedup(s)[i]
                != #[trigger] dedup(s)[j],
    decreases s.len(),
{
    if s.len() > 1 {
        let less = s.drop_last();
        lemma_dedup(less);
        assert(less.last() == s[s.len() - 2]);
        assert forall|i: int| 0 <= i < dedup(s).len() implies s.contains(#[trigger] dedup(s)[i]) by {
            if i < dedup(less).len() {
                assert(dedup(s)[i] == dedup(less)[i]);
                let k = choose|k: int| 0 <= k < less.len() && less[k] == dedup(less)[i];
                assert(s[k] == dedup(s)[i]);
            } else {
                assert(s[s.len() - 1] == dedup(s)[i]);
            }
        }
        assert forall|i: int, j: int| 0 <= i && j == i + 1 && j < dedup(s).len() implies
            #[trigger] dedup(s)[i] != #[trigger] dedup(s)[j] by {
            if j < dedup(less).len() {
                assert(dedup(s)[i] == dedup(less)[i] && dedup(s)[j] == dedup(less)[j]);
            }
        }
    }
}

/// Whether `c` is the command of a denied entry.
pub open spec fn was_denied(es: Seq<AuditEntry>, c: Seq<char>) -> bool {
    exists|k: int| 0 <= k < es.len() && (#[trigger] es[k]).decision@ == "deny"@ && es[k].command@ == c
}

/// Whether `t` is the preview of an entry that was not simply allowed.
pub open spec fn was_previewed(es: Seq<AuditEntry>, t: Seq<char>) -> bool {
    exists|k: int|
        0 <= k < es.len() && (#[trigger] es[k]).decision@ != "allow"@ && opt(es[k].preview) == Some(
            t,
        )
}

/// Whether `p` is the kind and note of a backup in the manifest that an entry
/// refers to.
pub open spec fn was_insured(
    es: Seq<AuditEntry>,
    manifest: Seq<BackupRecord>,
    p: (Seq<char>, Seq<char>),
) -> bool {
    exists|k: int, m: int|
        0 <= k < es.len() && 0 <= m < manifest.len() && opt((#[trigger] es[k]).backup) == Some(
            (#[trigger] manifest[m]).id@,
        ) && p == (manifest[m].kind@, manifest[m].note@)
}

proof fn lemma_lookup_from(manifest: Seq<BackupRecord>, id: Seq<char>) -> (m: int)
    requires
        lookup(manifest, id) is Some,
    ensures
        0 <= m < manifest.len(),
        manifest[m].id@ == id,
        lookup(manifest, id) == Some((manifest[m].kind@, manifest[m].note@)),
    decreases manifest.len(),
{
    let less = manifest.drop_last();
    if manifest.last().id@ == id {
        manifest.len() - 1
    } else {
        let m = lemma_lookup_from(less, id);
        assert(less[m] == manifest[m]);
        m
    }
}

/// Nothing is invented: every blocked command, impact and backup that a report
/// lists has its source in an entry or in the manifest.
pub proof fn law_every_line_has_a_source(
    r: Report,
    es: Seq<AuditEntry>,
    manifest: Seq<BackupRecord>,
)
    requires
        reports(r, es, manifest),
    ensures
        forall|i: int| 0 <= i < r.blocked@.len() ==> was_denied(es, (#[trigger] r.blocked@[i])@),
        forall|i: int| 0 <= i < r.impacts@.len() ==> was_previewed(es, (#[trigger] r.impacts@[i])@),
        forall|i: int|
            0 <= i < r.backups@.len() ==> was_insured(
                es,
                manifest,
                #[trigger] pairs(r.backups@)[i],
            ),
        forall|i: int|
            0 <= i < r.recent@.len() ==> exists|k: int|
                0 <= k < es.len() && #[trigger] marked(r.recent@)[i] == event()(#[trigger] es[k]),
{
    let previews = es.filter_map(impact());
    let ids = es.filter_map(backup_id());
    let known = ids.filter_map(insured(manifest));
    assert forall|i: int| 0 <= i < r.blocked@.len() implies was_denied(
        es,
        (#[trigger] r.blocked@[i])@,
    ) by {
        assert(texts(r.blocked@)[i] == r.blocked@[i]@);
        let k = lemma_kept_from(es, blocked_command(), i);
        assert(es[k].decision@ == "deny"@);
    }
    assert forall|i: int| 0 <= i < r.impacts@.len() implies was_previewed(
        es,
        (#[trigger] r.impacts@[i])@,
    ) by {
        assert(texts(r.impacts@)[i] == r.impacts@[i]@);
        lemma_dedup(previews);
        let j = choose|j: int| 0 <= j < previews.len() && previews[j] == dedup(previews)[i];
        let k = lemma_kept_from(es, impact(), j);
        assert(es[k].decision@ != "allow"@);
    }
    assert forall|i: int| 0 <= i < r.backups@.len() implies was_insured(
        es,
        manifest,
        #[trigger] pairs(r.backups@)[i],
    ) by {
        lemma_dedup(known);
        let j = choose|j: int| 0 <= j < known.len() && known[j] == dedup(known)[i];
        let n = lemma_kept_from(ids, insured(manifest), j);
        let k = lemma_kept_from(es, backup_id(), n);
        let m = lemma_lookup_from(manifest, ids[n]);
        assert(opt(es[k].backup) == Some(manifest[m].id@));
    }
    assert forall|i: int| 0 <= i < r.recent@.len() implies exists|k: int|
        0 <= k < es.len() && #[trigger] marked(r.recent@)[i] == event()(#[trigger] es[k]) by {
        let last = tail(es, 6);
        assert(marked(r.recent@).len() == last.map_values(event()).len());
        assert(marked(r.recent@)[i] == event()(last[i]));
        let k = if es.len() > 6 {
            es.len() - 6 + i
        } else {
            i
        };
        assert(last[i] == es[k]);
    }
}

/// A report never lists the same impact or the same backup twice in a row.
pub proof fn law_no_line_repeats(r: Report, es: Seq<AuditEntry>, manifest: Seq<BackupRecord>)
    requires
        reports(r, es, manifest),
    ensures
        forall|i: int, j: int|
            0 <= i && j == i + 1 && j < r.impacts@.len() ==> (#[trigger] r.impacts@[i])@ != (
            #[trigger] r.impacts@[j])@,
        forall|i: int, j: int|
            0 <= i && j == i + 1 && j < r.backups@.len() ==> #[trigger] pairs(r.backups@)[i]
                != #[trigger] pairs(r.backups@)[j],
{
    lemma_dedup(es.filter_map(impact()));
    lemma_dedup(es.filter_map(backup_id()).filter_map(insured(manifest)));
    assert forall|i: int, j: int| 0 <= i && j == i + 1 && j < r.impacts@.len() implies (
    #[trigger] r.impacts@[i])@ != (#[trigger] r.impacts@[j])@ by {
        assert(texts(r.impacts@)[i] == r.impacts@[i]@);
        assert(texts(r.impacts@)[j] == r.impacts@[j]@);
    }
}

/// The entries classified as the intent `l`.
pub open spec fn classified_as(l: Seq<char>) -> spec_fn(AuditEntry) -> bool {
    |e: AuditEntry| opt(e.intent) == Some(l)
}

/// The entries classified as the intent `l` that the breaker escalated.
pub open spec fn blocked_as(l: Seq<char>) -> spec_fn(AuditEntry) -> bool {
    |e: AuditEntry| opt(e.matched_rule) == Some(BREAKER_RULE@) && opt(e.intent) == Some(l)
}

proof fn lemma_times_classified(es: Seq<AuditEntry>, l: Seq<char>)
    ensures
        times(es.filter_map(intent_label()), l) == count(es, classified_as(l)),
    decreases es.len(),
{
    reveal(Seq::filter);
    if es.len() > 0 {
        let rest = es.drop_last();
        let all = es.filter_map(intent_label());
        lemma_times_classified(rest, l);
        if opt(es.last().intent) is Some {
            assert(all.drop_last() == rest.filter_map(intent_label()));
        }
    }
}

proof fn lemma_times_blocked(es: Seq<AuditEntry>, l: Seq<char>)
    ensures
        times(es.filter_map(tripped_label()), l) == count(es, blocked_as(l)),
    decreases es.len(),
{
    reveal(Seq::filter);
    if es.len() > 0 {
        let rest = es.drop_last();
        let all = es.filter_map(tripped_label());
        lemma_times_blocked(rest, l);
        if tripped_label()(es.last()) is Some {
            assert(all.drop_last() == rest.filter_map(tripped_label()));
        }
    }
}

proof fn lemma_blocked_is_classified(es: Seq<AuditEntry>, l: Seq<char>)
    ensures
        count(es, blocked_as(l)) <= count(es, classified_as(l)),
    decreases es.len(),
{
    reveal(Seq::filter);
    if es.len() > 0 {
        lemma_blocked_is_classified(es.drop_last(), l);
    }
}

proof fn lemma_tripped_labels(es: Seq<AuditEntry>)
    ensures
        es.filter_map(tripped_label()).len() <= count(es, tripped()),
    decreases es.len(),
{
    reveal(Seq::filter);
    if es.len() > 0 {
        lemma_tripped_labels(es.drop_last());
    }
}

/// Classified intents and breaker trips are different numbers. Each intent is
/// counted with the entries classified as it, each trip with those of them
/// that the breaker escalated; an intent never has more trips than entries,
/// and the trips by intent never exceed the breaker trips.
pub proof fn law_trips_are_among_intents(
    r: Report,
    es: Seq<AuditEntry>,
    manifest: Seq<BackupRecord>,
)
    requires
        reports(r, es, manifest),
    ensures
        forall|i: int|
            0 <= i < r.intents@.len() ==> (#[trigger] counts(r.intents@)[i]).1 == count(
                es,
                classified_as(counts(r.intents@)[i].0),
            ),
        forall|i: int|
            0 <= i < r.trips_by_intent@.len() ==> (#[trigger] counts(r.trips_by_intent@)[i]).1
                == count(es, blocked_as(counts(r.trips_by_intent@)[i].0)),
        forall|l: Seq<char>|
            #![trigger count(es, blocked_as(l))]
            count(es, blocked_as(l)) <= count(es, classified_as(l)),
        total(counts(r.intents@)) == es.filter_map(intent_label()).len(),
        total(counts(r.trips_by_intent@)) <= r.breaker_trips,
{
    let intents = counts(r.intents@);
    let trips = counts(r.trips_by_intent@);
    assert forall|i: int| 0 <= i < r.intents@.len() implies (#[trigger] intents[i]).1 == count(
        es,
        classified_as(intents[i].0),
    ) by {
        lemma_times_classified(es, intents[i].0);
    }
    assert forall|i: int| 0 <= i < r.trips_by_intent@.len() implies (#[trigger] trips[i]).1
        == count(es, blocked_as(trips[i].0)) by {
        lemma_times_blocked(es, trips[i].0);
    }
    assert forall|l: Seq<char>|
        #![trigger count(es, blocked_as(l))]
        count(es, blocked_as(l)) <= count(es, classified_as(l)) by {
        lemma_blocked_is_classified(es, l);
    }
    law_counts_add_up(intents, es.filter_map(intent_label()));
    law_counts_add_up(trips, es.filter_map(tripped_label()));
    lemma_tripped_labels(es);
}

/// The Insight is about blocked attempts, not about destructive work. Where
/// there is one, it names the intent that the breaker blocked most often, how
/// often, and its usual causes, and that was often enough. There is none where
/// no intent was blocked often enough, however often it was classified; and
/// there is one where some intent was, if the blocked intents have known
/// causes.
pub proof fn law_insight_counts_blocked_attempts(
    r: Report,
    es: Seq<AuditEntry>,
    manifest: Seq<BackupRecord>,
)
    requires
        reports(r, es, manifest),
    ensures
        insight(r) matches Some(i) ==> i.1 == count(es, blocked_as(i.0)) && i.1
            >= INSIGHT_THRESHOLD && causes(i.0) == Some(i.2) && forall|l: Seq<char>|
            #[trigger] count(es, blocked_as(l)) <= i.1,
        (forall|l: Seq<char>| #[trigger] count(es, blocked_as(l)) < INSIGHT_THRESHOLD) ==> insight(r)
            is None,
        (exists|l: Seq<char>| #[trigger] count(es, blocked_as(l)) >= INSIGHT_THRESHOLD) && (forall|
            l: Seq<char>,
        | #[trigger] count(es, blocked_as(l)) > 0 ==> causes(l) is Some) ==> insight(r) is Some,
{
    let trips = counts(r.trips_by_intent@);
    let labels = es.filter_map(tripped_label());
    assert forall|l: Seq<char>| #[trigger] count(es, blocked_as(l)) > 0 implies trips.len() > 0
        && count(es, blocked_as(l)) <= trips[0].1 by {
        lemma_times_blocked(es, l);
        lemma_times_bound(labels, l);
        let i = choose|i: int| 0 <= i < trips.len() && (#[trigger] trips[i]).0 == l;
        if i > 0 {
            assert(ahead(trips[0], trips[i]));
        }
    }
    if trips.len() > 0 {
        lemma_times_blocked(es, trips[0].0);
        lemma_times_bound(labels, trips[0].0);
        assert(trips[0].1 == count(es, blocked_as(trips[0].0)));
    }
}

/// Every intent has its Insight: causes are known for each label.
pub proof fn law_every_intent_has_causes(intent: Intent)
    ensures
        causes(label_text(intent)) is Some,
{
}

proof fn lemma_none_kept<A, B>(s: Seq<A>, f: spec_fn(A) -> Option<B>)
    requires
        forall|k: int| 0 <= k < s.len() ==> f(#[trigger] s[k]) is None,
    ensures
        s.filter_map(f).len() == 0,
{
    if s.filter_map(f).len() > 0 {
        let k = lemma_kept_from(s, f, 0);
    }
}

proof fn lemma_none_counted(es: Seq<AuditEntry>, p: spec_fn(AuditEntry) -> bool)
    requires
        forall|k: int| 0 <= k < es.len() ==> !p(#[trigger] es[k]),
    ensures
        count(es, p) == 0,
{
    es.lemma_all_neg_filter_empty(p);
}

/// A quiet session, in which everything was allowed and nothing classified or
/// escalated, raises none of the warning sections and is of low risk.
pub proof fn law_quiet_session_raises_nothing(
    r: Report,
    es: Seq<AuditEntry>,
    manifest: Seq<BackupRecord>,
)
    requires
        reports(r, es, manifest),
        forall|k: int|
            0 <= k < es.len() ==> (#[trigger] es[k]).decision@ == "allow"@ && es[k].intent is None
                && !es[k].escalated,
    ensures
        blocked_markdown(r) == Seq::<char>::empty(),
        intents_markdown(r) == Seq::<char>::empty(),
        insight_markdown(r) == Seq::<char>::empty(),
        intents_section(r) == Seq::<char>::empty(),
        insight_section(r) == Seq::<char>::empty(),
        r.risk_label@ == "Low"@,
{
    lemma_words_differ();
    lemma_none_kept(es, blocked_command());
    lemma_none_kept(es, impact());
    lemma_none_kept(es, intent_label());
    lemma_none_kept(es, tripped_label());
    lemma_none_counted(es, decided("ask"@));
    lemma_none_counted(es, decided("deny"@));
    lemma_none_counted(es, escalated());
    assert(texts(r.blocked@).len() == 0);
    assert(texts(r.impacts@).len() == 0);
    let intents = counts(r.intents@);
    if intents.len() > 0 {
        assert(es.filter_map(intent_label()).contains(intents[0].0));
    }
    let trips = counts(r.trips_by_intent@);
    if trips.len() > 0 {
        assert(es.filter_map(tripped_label()).contains(trips[0].0));
    }
}

/// An entry that was denied raises the Blocked section, one with a preview
/// that was not simply allowed the Impact section, and one that was classified
/// the section on destructive intents.
pub proof fn law_facts_raise_their_sections(
    r: Report,
    es: Seq<AuditEntry>,
    manifest: Seq<BackupRecord>,
    k: int,
)
    requires
        reports(r, es, manifest),
        0 <= k < es.len(),
    ensures
        es[k].decision@ == "deny"@ ==> r.blocked@.len() > 0,
        es[k].decision@ != "allow"@ && es[k].preview is Some ==> r.impacts@.len() > 0,
        es[k].intent is Some ==> r.intents@.len() > 0,
        r.recent@.len() > 0,
{
    assert(texts(r.blocked@).len() == r.blocked@.len());
    assert(texts(r.impacts@).len() == r.impacts@.len());
    assert(marked(r.recent@).len() == r.recent@.len());
    assert(tail(es, 6).map_values(event()).len() > 0);
    if es[k].decision@ == "deny"@ {
        lemma_some_kept(es, blocked_command(), k);
    }
    if es[k].decision@ != "allow"@ && es[k].preview is Some {
        lemma_some_kept(es, impact(), k);
        lemma_dedup(es.filter_map(impact()));
    }
    if es[k].intent is Some {
        lemma_some_kept(es, intent_label(), k);
        let labels = es.filter_map(intent_label());
        assert(labels.contains(labels[0]));
        assert(counts(r.intents@).len() == r.intents@.len());
    }
}

proof fn lemma_some_kept<A, B>(s: Seq<A>, f: spec_fn(A) -> Option<B>, k: int)
    requires
        0 <= k < s.len(),
        f(s[k]) is Some,
    ensures
        s.filter_map(f).len() > 0,
    decreases s.len(),
{
    if k < s.len() - 1 {
        assert(s.drop_last()[k] == s[k]);
        lemma_some_kept(s.drop_last(), f, k);
    }
}

/// A report is determined by the entries in scope and the manifest: two of
/// them read the same, on a terminal and in Markdown.
pub proof fn law_report_is_determined(
    a: Report,
    b: Report,
    es: Seq<AuditEntry>,
    manifest: Seq<BackupRecord>,
    roll: Rollup,
    session: Option<Seq<char>>,
    colour: bool,
)
    requires
        reports(a, es, manifest),
        reports(b, es, manifest),
    ensures
        terminal_text(a, roll, session, colour) == terminal_text(b, roll, session, colour),
        markdown_text(a, roll, session) == markdown_text(b, roll, session),
{
    law_ranking_is_unique(
        counts(a.intents@),
        counts(b.intents@),
        es.filter_map(intent_label()),
    );
    law_ranking_is_unique(
        counts(a.trips_by_intent@),
        counts(b.trips_by_intent@),
        es.filter_map(tripped_label()),
    );
    assert(counts(a.intents@).len() == a.intents@.len() && counts(b.intents@).len()
        == b.intents@.len());
    assert(texts(a.blocked@).len() == a.blocked@.len() && texts(b.blocked@).len()
        == b.blocked@.len());
    assert(texts(a.impacts@).len() == a.impacts@.len() && texts(b.impacts@).len()
        == b.impacts@.len());
    assert(pairs(a.backups@).len() == a.backups@.len() && pairs(b.backups@).len()
        == b.backups@.len());
    assert(marked(a.recent@).len() == a.recent@.len() && marked(b.recent@).len()
        == b.recent@.len());
}

/// The last session seen is that of the latest entry that has one.
pub proof fn lemma_last_session(all: Seq<AuditEntry>) -> (k: int)
    requires
        all.filter_map(session_id()).len() > 0,
    ensures
        0 <= k < all.len(),
        opt(all[k].session) == Some(all.filter_map(session_id()).last()),
        forall|j: int| k < j < all.len() ==> (#[trigger] all[j]).session is None,
    decreases all.len(),
{
    let less = all.drop_last();
    if all.last().session is Some {
        all.len() - 1
    } else {
        let k = lemma_last_session(less);
        assert(less[k] == all[k]);
        assert forall|j: int| k < j < all.len() implies (#[trigger] all[j]).session is None by {
            if j < less.len() {
                assert(less[j] == all[j]);
            }
        }
        k
    }
}

/// How a scope resolves: everything where everything is asked for, else the
/// session that is asked for, else that of the latest entry that has one, else
/// everything.
pub proof fn law_scope_resolution(all: Seq<AuditEntry>, scope: Scope)
    ensures
        scope.all ==> scoped_session(all, scope) is None,
        !scope.all && scope.session is Some ==> scoped_session(all, scope) == opt(scope.session),
        !scope.all && scope.session is None ==> match scoped_session(all, scope) {
            Some(s) => exists|k: int|
                0 <= k < all.len() && opt((#[trigger] all[k]).session) == Some(s) && forall|j: int|
                    k < j < all.len() ==> (#[trigger] all[j]).session is None,
            None => forall|k: int| 0 <= k < all.len() ==> (#[trigger] all[k]).session is None,
        },
        scoped_session(all, scope) is None ==> selected(all, scoped_session(all, scope)) == all,
{
    if all.filter_map(session_id()).len() > 0 {
        let k = lemma_last_session(all);
        assert(opt(all[k].session) is Some);
    } else {
        assert forall|k: int| 0 <= k < all.len() implies (#[trigger] all[k]).session is None by {
            if all[k].session is Some {
                lemma_some_kept(all, session_id(), k);
            }
        }
    }
}

/// Only a session that was asked for can turn out to have no entries.
pub proof fn law_resolved_session_has_entries(all: Seq<AuditEntry>, scope: Scope)
    requires
        all.len() > 0,
        scope.session is None,
    ensures
        selected(all, scoped_session(all, scope)).len() > 0,
{
    if !scope.all && all.filter_map(session_id()).len() > 0 {
        let k = lemma_last_session(all);
        let s = all.filter_map(session_id()).last();
        broadcast use vstd::seq_lib::group_filter_ensures;

        assert(all.filter(of_session(s)).contains(all[k]));
    }
}

proof fn lemma_filter_within(es: Seq<AuditEntry>, p: spec_fn(AuditEntry) -> bool, q: spec_fn(
    AuditEntry,
) -> bool)
    requires
        forall|e: AuditEntry| #[trigger] p(e) ==> q(e),
    ensures
        es.filter(p).len() <= es.filter(q).len() <= es.len(),
    decreases es.len(),
{
    reveal(Seq::filter);
    if es.len() > 0 {
        lemma_filter_within(es.drop_last(), p, q);
    }
}

proof fn lemma_filter_map_len<A, B>(s: Seq<A>, f: spec_fn(A) -> Option<B>)
    ensures
        s.filter_map(f).len() <= s.len(),
    decreases s.len(),
{
    if s.len() > 0 {
        lemma_filter_map_len(s.drop_last(), f);
    }
}

/// The top labels are the most frequent: there are at most `n` of them, all
/// different and each among the labels, the more frequent first, and none that
/// is left out is more frequent than one that is not.
pub proof fn law_top_is_most_frequent(names: Seq<Seq<char>>, labels: Seq<Seq<char>>, n: nat)
    requires
        is_top(names, labels, n),
    ensures
        names.len() <= n,
        names.no_duplicates(),
        forall|i: int| 0 <= i < names.len() ==> labels.contains(#[trigger] names[i]),
        forall|i: int, j: int|
            0 <= i < j < names.len() ==> times(labels, #[trigger] names[i]) >= times(
                labels,
                #[trigger] names[j],
            ),
        forall|l: Seq<char>, i: int|
            #![trigger labels.contains(l), names[i]]
            labels.contains(l) && !names.contains(l) && 0 <= i < names.len() ==> times(
                labels,
                names[i],
            ) >= times(labels, l),
        (exists|l: Seq<char>| #[trigger] labels.contains(l) && !names.contains(l)) ==> names.len()
            == n,
{
    let c = choose|c: Seq<(Seq<char>, nat)>|
        #[trigger] is_ranking(c, labels) && names == leaders(c, n);
    assert forall|k: int| 0 <= k < names.len() implies #[trigger] names[k] == c[k].0
        && labels.contains(names[k]) && times(labels, names[k]) == c[k].1 by {}
    assert forall|x: int, y: int|
        0 <= x < names.len() && 0 <= y < names.len() && x != y implies names[x] != names[y] by {
        if x < y {
            assert(c[x].0 != c[y].0);
        } else {
            assert(c[y].0 != c[x].0);
        }
    }
    assert forall|x: int, y: int| 0 <= x < y < names.len() implies times(labels, #[trigger] names[x])
        >= times(labels, #[trigger] names[y]) by {
        assert(ahead(c[x], c[y]));
    }
    assert forall|l: Seq<char>| #[trigger] labels.contains(l) && !names.contains(l) implies
        names.len() == n && (forall|i: int|
        0 <= i < names.len() ==> times(labels, #[trigger] names[i]) >= times(labels, l)) by {
        let k = choose|k: int| 0 <= k < c.len() && (#[trigger] c[k]).0 == l;
        if k < names.len() {
            assert(names[k] == l);
        }
        assert forall|i: int| 0 <= i < names.len() implies times(labels, #[trigger] names[i])
            >= times(labels, l) by {
            assert(ahead(c[i], c[k]));
        }
    }
}

/// The figures of a rollup agree: no more sessions, decisions, backups or
/// trips than commands, no more commands than the log has entries, and at most
/// three directories.
pub proof fn law_rollup_adds_up(r: Rollup, all: Seq<AuditEntry>, days: u64, now_ms: u128)
    requires
        rolls_up(r, all, days, now_ms),
    ensures
        r.commands <= all.len(),
        r.sessions <= r.commands,
        r.allow + r.ask + r.deny <= r.commands,
        r.backups <= r.commands,
        r.breaker_trips <= r.commands,
        r.top_directories@.len() <= 3,
{
    let p = since(cutoff(days, now_ms));
    let w = all.filter(p);
    lemma_filter_within(all, p, p);
    lemma_decisions_are_disjoint(w);
    lemma_count_bound(w, backed_up());
    lemma_count_bound(w, tripped());
    let ids = w.filter_map(session_id());
    lemma_filter_map_len(w, session_id());
    vstd::seq_lib::seq_to_set_is_finite(ids);
    ids.lemma_cardinality_of_set();
    assert(texts(r.top_directories@).len() == r.top_directories@.len());
    law_top_is_most_frequent(texts(r.top_directories@), w.filter_map(directory()), 3);
}

/// The directories of a rollup have a source too: each is the last component
/// of the directory of an entry in the window.
pub proof fn law_directories_have_a_source(
    r: Rollup,
    all: Seq<AuditEntry>,
    days: u64,
    now_ms: u128,
    i: int,
) -> (k: int)
    requires
        rolls_up(r, all, days, now_ms),
        0 <= i < r.top_directories@.len(),
    ensures
        0 <= k < all.len(),
        all[k].ts_ms >= cutoff(days, now_ms),
        r.top_directories@[i]@ == basename(all[k].cwd@),
        r.top_directories@[i]@.len() > 0,
{
    broadcast use vstd::seq_lib::group_filter_ensures;

    let p = since(cutoff(days, now_ms));
    let w = all.filter(p);
    let names = w.filter_map(directory());
    let top = texts(r.top_directories@);
    assert(top[i] == r.top_directories@[i]@);
    law_top_is_most_frequent(top, names, 3);
    assert(names.contains(top[i]));
    let n = choose|n: int| 0 <= n < names.len() && names[n] == top[i];
    let m = lemma_kept_from(w, directory(), n);
    all.lemma_filter_pred(p, m);
    assert(w.contains(w[m]));
    all.lemma_filter_contains_rev(p, w[m]);
    choose|k: int| 0 <= k < all.len() && all[k] == w[m]
}

/// What is counted in a narrower selection is counted in a wider one.
proof fn lemma_count_within(
    es: Seq<AuditEntry>,
    p: spec_fn(AuditEntry) -> bool,
    q: spec_fn(AuditEntry) -> bool,
    c: spec_fn(AuditEntry) -> bool,
)
    requires
        forall|e: AuditEntry| #[trigger] p(e) ==> q(e),
    ensures
        count(es.filter(p), c) <= count(es.filter(q), c),
    decreases es.len(),
{
    reveal(Seq::filter);
    if es.len() > 0 {
        let less = es.drop_last();
        lemma_count_within(less, p, q, c);
        assert(p(es.last()) ==> q(es.last()));
        assert(less.filter(p).push(es.last()).drop_last() == less.filter(p));
        assert(less.filter(q).push(es.last()).drop_last() == less.filter(q));
    }
}

proof fn lemma_session_within(
    es: Seq<AuditEntry>,
    p: spec_fn(AuditEntry) -> bool,
    q: spec_fn(AuditEntry) -> bool,
    l: Seq<char>,
)
    requires
        forall|e: AuditEntry| #[trigger] p(e) ==> q(e),
        es.filter(p).filter_map(session_id()).contains(l),
    ensures
        es.filter(q).filter_map(session_id()).contains(l),
    decreases es.len(),
{
    reveal(Seq::filter);
    let f = session_id();
    let ids = es.filter(p).filter_map(f);
    let wide = es.filter(q).filter_map(f);
    if es.len() > 0 {
        let less = es.drop_last();
        let e = es.last();
        let a = less.filter(p);
        let b = less.filter(q);
        assert(p(e) ==> q(e));
        assert(a.push(e).drop_last() == a);
        assert(b.push(e).drop_last() == b);
        if p(e) && f(e) == Some(l) {
            assert(wide == b.filter_map(f) + seq![l]);
            assert(wide[wide.len() - 1] == l);
        } else {
            let i = choose|i: int| 0 <= i < ids.len() && ids[i] == l;
            assert(i < a.filter_map(f).len());
            assert(a.filter_map(f)[i] == l);
            lemma_session_within(less, p, q, l);
            let j = choose|j: int| 0 <= j < b.filter_map(f).len() && b.filter_map(f)[j] == l;
            assert(wide[j] == l);
        }
    }
}

/// A longer window holds at least what a shorter one holds: commands, sessions,
/// decisions, backups and trips. One that reaches back to the epoch holds all
/// commands.
pub proof fn law_longer_window_holds_more(
    a: Rollup,
    b: Rollup,
    all: Seq<AuditEntry>,
    days: u64,
    more: u64,
    now_ms: u128,
)
    requires
        rolls_up(a, all, days, now_ms),
        rolls_up(b, all, more, now_ms),
        days <= more,
    ensures
        a.commands <= b.commands,
        a.sessions <= b.sessions,
        a.allow <= b.allow,
        a.ask <= b.ask,
        a.deny <= b.deny,
        a.backups <= b.backups,
        a.breaker_trips <= b.breaker_trips,
        more * 86_400_000 >= now_ms ==> b.commands == all.len(),
{
    let p = since(cutoff(days, now_ms));
    let q = since(cutoff(more, now_ms));
    lemma_filter_within(all, p, q);
    lemma_count_within(all, p, q, decided("allow"@));
    lemma_count_within(all, p, q, decided("ask"@));
    lemma_count_within(all, p, q, decided("deny"@));
    lemma_count_within(all, p, q, backed_up());
    lemma_count_within(all, p, q, tripped());
    let x = all.filter(p).filter_map(session_id());
    let y = all.filter(q).filter_map(session_id());
    assert forall|l: Seq<char>| x.to_set().contains(l) implies y.to_set().contains(l) by {
        lemma_session_within(all, p, q, l);
    }
    vstd::seq_lib::seq_to_set_is_finite(y);
    vstd::set_lib::lemma_len_subset(x.to_set(), y.to_set());
    if more * 86_400_000 >= now_ms {
        lemma_filter_all(all, q);
    }
}

/// A rollup is determined by the log, the number of days and the time: two of
/// them have the same figures and read the same.
pub proof fn law_rollup_is_determined(
    a: Rollup,
    b: Rollup,
    all: Seq<AuditEntry>,
    days: u64,
    now_ms: u128,
)
    requires
        rolls_up(a, all, days, now_ms),
        rolls_up(b, all, days, now_ms),
    ensures
        texts(a.top_directories@) == texts(b.top_directories@),
        rollup_section(a) == rollup_section(b),
        rollup_markdown(a) == rollup_markdown(b),
{
    let labels = all.filter(since(cutoff(days, now_ms))).filter_map(directory());
    let x = texts(a.top_directories@);
    let y = texts(b.top_directories@);
    let c = choose|c: Seq<(Seq<char>, nat)>|
        #[trigger] is_ranking(c, labels) && x == leaders(c, 3);
    let d = choose|d: Seq<(Seq<char>, nat)>|
        #[trigger] is_ranking(d, labels) && y == leaders(d, 3);
    law_ranking_is_unique(c, d, labels);
    assert(x.len() == a.top_directories@.len() && y.len() == b.top_directories@.len());
}

/// Whether a run prints a report.
pub open spec fn prints_report(all: Seq<AuditEntry>, scope: Scope) -> bool {
    all.len() > 0 && selected(all, scoped_session(all, scope)).len() > 0
}

proof fn lemma_ends_with_rollup(r: Report, roll: Rollup, session: Option<Seq<char>>, colour: bool)
    ensures
        rollup_section(roll).is_suffix_of(terminal_text(r, roll, session, colour)),
        rollup_markdown(roll).is_suffix_of(markdown_text(r, roll, session)),
{
    lemma_ends_with(
        session_section(r, session) + intents_section(r) + insight_section(r) + recent_section(r)
            + insurance_section(r) + risk_section(r, colour),
        rollup_section(roll),
    );
    lemma_ends_with(
        session_markdown(r, session) + blocked_markdown(r) + intents_markdown(r)
            + insight_markdown(r) + insurance_markdown(r),
        rollup_markdown(roll),
    );
}

proof fn lemma_ends_with(a: Seq<char>, b: Seq<char>)
    ensures
        b.is_suffix_of(a + b),
{
    assert((a + b).subrange(a.len() as int, (a + b).len() as int) =~= b);
}

/// The rollup covers every session in the window, not just the one reported:
/// two runs on one log at one time, over the same number of days, that differ
/// in what they report on print the same last section.
pub proof fn law_rollup_covers_every_session(
    a: Outcome,
    b: Outcome,
    all: Seq<AuditEntry>,
    manifest: Seq<BackupRecord>,
    x: Scope,
    y: Scope,
    markdown: bool,
    colour: bool,
    now_ms: u128,
) -> (section: Seq<char>)
    requires
        ran(a, all, manifest, x, markdown, colour, now_ms),
        ran(b, all, manifest, y, markdown, colour, now_ms),
        x.days == y.days,
        prints_report(all, x),
        prints_report(all, y),
    ensures
        exists|roll: Rollup|
            #[trigger] rolls_up(roll, all, x.days, now_ms) && section == if markdown {
                rollup_markdown(roll)
            } else {
                rollup_section(roll)
            },
        section.is_suffix_of(a.text@),
        section.is_suffix_of(b.text@),
{
    let xs = scoped_session(all, x);
    let ys = scoped_session(all, y);
    let (r, roll) = choose|r: Report, roll: Rollup|
        #[trigger] reports(r, selected(all, xs), manifest) && #[trigger] rolls_up(
            roll,
            all,
            x.days,
            now_ms,
        ) && a.text@ == if markdown {
            markdown_text(r, roll, xs)
        } else {
            terminal_text(r, roll, xs, colour)
        };
    let (r2, roll2) = choose|r: Report, roll: Rollup|
        #[trigger] reports(r, selected(all, ys), manifest) && #[trigger] rolls_up(
            roll,
            all,
            y.days,
            now_ms,
        ) && b.text@ == if markdown {
            markdown_text(r, roll, ys)
        } else {
            terminal_text(r, roll, ys, colour)
        };
    lemma_ends_with_rollup(r, roll, xs, colour);
    lemma_ends_with_rollup(r2, roll2, ys, colour);
    law_rollup_is_determined(roll, roll2, all, x.days, now_ms);
    if markdown {
        rollup_markdown(roll)
    } else {
        rollup_section(roll)
    }
}

/// What a run prints and ends with is determined by the log, the manifest, the
/// scope and the time.
pub proof fn law_run_is_determined(
    a: Outcome,
    b: Outcome,
    all: Seq<AuditEntry>,
    manifest: Seq<BackupRecord>,
    scope: Scope,
    markdown: bool,
    colour: bool,
    now_ms: u128,
)
    requires
        ran(a, all, manifest, scope, markdown, colour, now_ms),
        ran(b, all, manifest, scope, markdown, colour, now_ms),
    ensures
        a.text@ == b.text@,
        a.code == b.code,
{
    let session = scoped_session(all, scope);
    let es = selected(all, session);
    if all.len() > 0 && es.len() > 0 {
        let (r, roll) = choose|r: Report, roll: Rollup|
            #[trigger] reports(r, es, manifest) && #[trigger] rolls_up(
                roll,
                all,
                scope.days,
                now_ms,
            ) && a.text@ == if markdown {
                markdown_text(r, roll, session)
            } else {
                terminal_text(r, roll, session, colour)
            };
        let (r2, roll2) = choose|r: Report, roll: Rollup|
            #[trigger] reports(r, es, manifest) && #[trigger] rolls_up(
                roll,
                all,
                scope.days,
                now_ms,
            ) && b.text@ == if markdown {
                markdown_text(r, roll, session)
            } else {
                terminal_text(r, roll, session, colour)
            };
        law_report_is_determined(r, r2, es, manifest, roll, session, colour);
        law_rollup_is_determined(roll, roll2, all, scope.days, now_ms);
    }
}

/// A session id in ASCII can always be cut, and shows as its first eight
/// characters, or all of them.
pub proof fn law_ascii_session_shows_its_start(s: Seq<char>)
    requires
        is_ascii_chars(s),
    ensures
        can_shorten(s),
        short_text(s) == "session "@ + if s.len() < 8 {
            s
        } else {
            s.take(8)
        },
{
    let n: int = if s.len() < 8 {
        s.len() as int
    } else {
        8
    };
    is_ascii_chars_encode_utf8(s);
    encode_utf8_valid_utf8(s);
    let bytes = encode_utf8(s);
    if n < s.len() {
        is_char_boundary_iff_not_is_continuation_byte(bytes, n);
        assert(bytes[n] == s[n] as u8);
    } else {
        is_char_boundary_start_end_of_seq(bytes);
    }
    assert(is_ascii_chars(s.take(n)));
    is_ascii_chars_encode_utf8(s.take(n));
    assert(bytes.take(n) =~= encode_utf8(s.take(n)));
    encode_utf8_decode_utf8(s.take(n));
    assert(s.len() < 8 ==> s.take(n) == s);
}

/// The report and the rest of the interface agree on the mark of a decision,
/// with colour and without.
pub proof fn law_marks_agree(decision: Seq<char>, source: Seq<char>, colour: bool)
    ensures
        shows(mark_text(decision, source, colour), mark_of(decision, source)),
{
    reveal_strlit("✓");
    reveal_strlit("?");
    reveal_strlit("✗");
    reveal_strlit("•");
    lemma_codes();
    lemma_clear_shows("✓"@);
    lemma_clear_shows("?"@);
    lemma_clear_shows("✗"@);
    lemma_clear_shows("•"@);
    law_colour_keeps_text("32"@, "✓"@, "✓"@, colour);
    law_colour_keeps_text("33"@, "?"@, "?"@, colour);
    law_colour_keeps_text("31"@, "✗"@, "✗"@, colour);
    law_colour_keeps_text("2"@, "•"@, "•"@, colour);
}

/// A post-execution receipt is a success, whatever had been decided.
pub proof fn law_receipt_is_a_success(decision: Seq<char>)
    ensures
        mark_of(decision, "post"@) == "✓"@,
{
}

/// What a terminal report prints before the risk label.
pub open spec fn before_risk(r: Report, session: Option<Seq<char>>) -> Seq<char> {
    session_section(r, session) + intents_section(r) + insight_section(r) + recent_section(r)
        + insurance_section(r) + "Risk      : "@
}

/// What a terminal report prints after the risk label.
pub open spec fn after_risk(r: Report, roll: Rollup) -> Seq<char> {
    figure("  (deny×3 + escalation×2 + ask×1 = "@, r.risk_score as nat, ")\n"@) + rollup_section(
        roll,
    )
}

proof fn lemma_regroup(v: Seq<char>, w: Seq<char>, x: Seq<char>, y: Seq<char>, z: Seq<char>)
    ensures
        v + (w + x + y) + z == v + w + x + (y + z),
{
    assert(v + (w + x + y) + z =~= v + w + x + (y + z));
}

proof fn lemma_risk_label_stands_alone(
    r: Report,
    roll: Rollup,
    session: Option<Seq<char>>,
    colour: bool,
)
    ensures
        terminal_text(r, roll, session, colour) == before_risk(r, session) + risk_text(
            r.risk_label@,
            colour,
        ) + after_risk(r, roll),
{
    lemma_regroup(
        session_section(r, session) + intents_section(r) + insight_section(r) + recent_section(r)
            + insurance_section(r),
        "Risk      : "@,
        risk_text(r.risk_label@, colour),
        figure("  (deny×3 + escalation×2 + ask×1 = "@, r.risk_score as nat, ")\n"@),
        rollup_section(roll),
    );
}

proof fn lemma_risk_label_shows(score: nat, colour: bool)
    ensures
        shows(risk_text(risk_label_of(score), colour), risk_label_of(score)),
{
    reveal_strlit("Low");
    reveal_strlit("Medium");
    reveal_strlit("High");
    let label = risk_label_of(score);
    assert(clear(label));
    lemma_codes();
    lemma_clear_shows(label);
    law_colour_keeps_text("32"@, label, label, colour);
    law_colour_keeps_text("33"@, label, label, colour);
    law_colour_keeps_text("31"@, label, label, colour);
}

proof fn lemma_visible_middle(a: Seq<char>, x: Seq<char>, y: Seq<char>, t: Seq<char>, b: Seq<char>)
    requires
        !escaping(a, false),
        shows(x, t),
        shows(y, t),
    ensures
        visible(a + x + b, false) == visible(a + y + b, false),
{
    lemma_visible_add(a, x, false);
    lemma_visible_add(a + x, b, false);
    lemma_visible_add(a, y, false);
    lemma_visible_add(a + y, b, false);
}

/// Colour changes nothing that a reader sees of a report. The one thing
/// required is that no command or note printed before the risk label leaves an
/// escape sequence of its own open there.
pub proof fn law_report_reads_the_same_in_colour(
    r: Report,
    roll: Rollup,
    es: Seq<AuditEntry>,
    manifest: Seq<BackupRecord>,
    session: Option<Seq<char>>,
)
    requires
        reports(r, es, manifest),
        !escaping(before_risk(r, session), false),
    ensures
        visible(terminal_text(r, roll, session, true), false) == visible(
            terminal_text(r, roll, session, false),
            false,
        ),
{
    lemma_risk_label_stands_alone(r, roll, session, true);
    lemma_risk_label_stands_alone(r, roll, session, false);
    lemma_risk_label_shows(risk(es), true);
    lemma_risk_label_shows(risk(es), false);
    lemma_visible_middle(
        before_risk(r, session),
        risk_text(r.risk_label@, true),
        risk_text(r.risk_label@, false),
        r.risk_label@,
        after_risk(r, roll),
    );
}

/// The risk of as many entries as a report reads can always be counted, so
/// that a run needs nothing but a session id that can be cut.
pub proof fn law_risk_of_a_log_is_countable(all: Seq<AuditEntry>, scope: Scope)
    requires
        all.len() <= READ_LIMIT,
    ensures
        risk(selected(all, scoped_session(all, scope))) <= u32::MAX,
        scoped_session(all, scope) is None ==> can_run(all, scope),
{
    let es = selected(all, scoped_session(all, scope));
    if let Some(s) = scoped_session(all, scope) {
        lemma_filter_within(all, of_session(s), of_session(s));
    }
    lemma_count_bound(es, decided("deny"@));
    lemma_count_bound(es, escalated());
    lemma_count_bound(es, decided("ask"@));
}

} // verus!
