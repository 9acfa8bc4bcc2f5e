//! How a report follows from its entries, one by one: what a single entry
//! gives, and what one more entry changes.

use vstd::prelude::*;

use crate::audit::{tail, AuditEntry};
use crate::report::{
    backed_up, backup_id, basename, blocked_command, can_run, count, cutoff, decided, dedup, directory,
    escalated, event, impact, insured, intent_label, last_part, leaders, lookup, mark_of,
    marked, of_session, pairs, ran, reports, risk, risk_label_of, rolled_back, rolls_up,
    scoped_session, selected, session_id, since, tripped, tripped_label, BackupRecord, Outcome,
    Report, Rollup, Scope,
};
use crate::report_laws::{lemma_dedup, lemma_last_session};
use crate::report_text::{can_shorten, markdown_text, terminal_text};
use crate::tally::{ahead, counts, is_ranking, lemma_times_bound, times};
use crate::text::{before, occurs_in, texts};

verus! {

/// One where `b` holds, else none.
pub open spec fn one_if(b: bool) -> int {
    if b {
        1
    } else {
        0
    }
}

/// The text of an optional string is `t`.
pub open spec fn is_text(o: Option<String>, t: Seq<char>) -> bool {
    o is Some && o->0@ == t
}

proof fn lemma_count_push(es: Seq<AuditEntry>, e: AuditEntry, p: spec_fn(AuditEntry) -> bool)
    ensures
        count(es.push(e), p) == count(es, p) + one_if(p(e)),
        count(Seq::empty(), p) == 0,
        es.push(e).filter(p) == if p(e) {
            es.filter(p).push(e)
        } else {
            es.filter(p)
        },
{
    reveal(Seq::filter);
    assert(es.push(e).drop_last() =~= es);
}

proof fn lemma_kept_push<A, B>(s: Seq<A>, x: A, f: spec_fn(A) -> Option<B>)
    ensures
        s.push(x).filter_map(f) == match f(x) {
            Some(y) => s.filter_map(f).push(y),
            None => s.filter_map(f),
        },
        Seq::<A>::empty().filter_map(f) == Seq::<B>::empty(),
{
    assert(s.push(x).drop_last() =~= s);
}

/// `list` with `x` behind it, unless `x` already stands there.
pub open spec fn followed_by<T>(list: Seq<T>, x: T) -> Seq<T> {
    if list.len() > 0 && list[list.len() - 1] == x {
        list
    } else {
        list.push(x)
    }
}

proof fn lemma_dedup_push<T>(s: Seq<T>, x: T)
    ensures
        dedup(s.push(x)) == followed_by(dedup(s), x),
        dedup(Seq::<T>::empty()) == Seq::<T>::empty(),
{
    lemma_dedup(s);
    let t = s.push(x);
    assert(t.drop_last() =~= s);
    if s.len() > 0 {
        assert(t[t.len() - 2] == s.last());
    } else {
        assert(dedup(s) =~= Seq::<T>::empty());
        assert(t =~= Seq::<T>::empty().push(x));
    }
}

/// Whether `p` is the kind and note of the last record of a backup in the
/// manifest.
pub open spec fn is_last_record(
    manifest: Seq<BackupRecord>,
    id: Seq<char>,
    p: (Seq<char>, Seq<char>),
) -> bool {
    exists|m: int|
        0 <= m < manifest.len() && (#[trigger] manifest[m]).id@ == id && manifest[m].kind@ == p.0
            && manifest[m].note@ == p.1 && forall|k: int|
            m < k < manifest.len() ==> (#[trigger] manifest[k]).id@ != id
}

/// Whether the manifest has no record of a backup.
pub open spec fn has_no_record(manifest: Seq<BackupRecord>, id: Seq<char>) -> bool {
    forall|m: int| 0 <= m < manifest.len() ==> (#[trigger] manifest[m]).id@ != id
}

/// The manifest's last record of a backup counts; a backup that it does not
/// know has none.
pub proof fn law_last_record_counts(manifest: Seq<BackupRecord>, id: Seq<char>)
    ensures
        forall|p: (Seq<char>, Seq<char>)| #[trigger]
            is_last_record(manifest, id, p) <==> lookup(manifest, id) == Some(p),
        has_no_record(manifest, id) <==> lookup(manifest, id) is None,
    decreases manifest.len(),
{
    if manifest.len() > 0 {
        let less = manifest.drop_last();
        let n = manifest.len() - 1;
        law_last_record_counts(less, id);
        if manifest.last().id@ == id {
            assert(manifest[n].id@ == id);
        } else {
            assert forall|p: (Seq<char>, Seq<char>)| #[trigger]
                is_last_record(manifest, id, p) <==> is_last_record(less, id, p) by {
                if is_last_record(manifest, id, p) {
                    let m = choose|m: int|
                        0 <= m < manifest.len() && (#[trigger] manifest[m]).id@ == id
                            && manifest[m].kind@ == p.0 && manifest[m].note@ == p.1 && forall|
                            k: int,
                        | m < k < manifest.len() ==> (#[trigger] manifest[k]).id@ != id;
                    assert(less[m] == manifest[m]);
                    assert forall|k: int| m < k < less.len() implies (#[trigger] less[k]).id@
                        != id by {
                        assert(manifest[k].id@ != id);
                    }
                }
                if is_last_record(less, id, p) {
                    let m = choose|m: int|
                        0 <= m < less.len() && (#[trigger] less[m]).id@ == id && less[m].kind@
                            == p.0 && less[m].note@ == p.1 && forall|k: int|
                            m < k < less.len() ==> (#[trigger] less[k]).id@ != id;
                    assert(manifest[m] == less[m]);
                    assert forall|k: int| m < k < manifest.len() implies (
                    #[trigger] manifest[k]).id@ != id by {
                        if k < n {
                            assert(less[k].id@ != id);
                        }
                    }
                }
            }
            if has_no_record(less, id) {
                assert forall|m: int| 0 <= m < manifest.len() implies (#[trigger] manifest[m]).id@
                    != id by {
                    if m < n {
                        assert(less[m].id@ != id);
                    }
                }
            }
            if has_no_record(manifest, id) {
                assert forall|m: int| 0 <= m < less.len() implies (#[trigger] less[m]).id@
                    != id by {
                    assert(manifest[m].id@ != id);
                }
            }
        }
    }
}

/// The duration of a report is the number of whole minutes between its first
/// and its last entry, and none where time did not move on.
pub proof fn law_duration_is_whole_minutes(
    r: Report,
    es: Seq<AuditEntry>,
    manifest: Seq<BackupRecord>,
)
    requires
        reports(r, es, manifest),
    ensures
        ({
            let span = es[es.len() - 1].ts_ms - es[0].ts_ms;
            &&& 0 <= span < 0x1_0000_0000_0000_0000 ==> r.duration_min * 60_000 <= span < (
            r.duration_min + 1) * 60_000
            &&& span <= 0 ==> r.duration_min == 0
        }),
{
}

/// A report begins with its first entry and ends with its last.
pub proof fn law_report_spans_its_entries(
    r: Report,
    es: Seq<AuditEntry>,
    manifest: Seq<BackupRecord>,
)
    requires
        reports(r, es, manifest),
        es.len() > 0,
    ensures
        r.first_ts@ == es[0].ts@,
        r.last_ts@ == es[es.len() - 1].ts@,
        r.total == es.len(),
{
}

/// The mark of an entry: a tick for a receipt and for what was allowed, a
/// question mark for a question, a cross for a denial, a dot for all else.
pub proof fn law_mark_of_each_decision(decision: Seq<char>, source: Seq<char>)
    ensures
        source == "post"@ || decision == "allow"@ ==> mark_of(decision, source) == seq!['✓'],
        source != "post"@ && decision == "ask"@ ==> mark_of(decision, source) == seq!['?'],
        source != "post"@ && decision == "deny"@ ==> mark_of(decision, source) == seq!['✗'],
        source != "post"@ && decision != "allow"@ && decision != "ask"@ && decision != "deny"@
            ==> mark_of(decision, source) == seq!['•'],
{
    reveal_strlit("✓");
    reveal_strlit("?");
    reveal_strlit("✗");
    reveal_strlit("•");
    reveal_strlit("allow");
    reveal_strlit("ask");
    reveal_strlit("deny");
    assert("allow"@.len() == 5 && "ask"@.len() == 3 && "deny"@.len() == 4);
    assert("✓"@ =~= seq!['✓']);
    assert("?"@ =~= seq!['?']);
    assert("✗"@ =~= seq!['✗']);
    assert("•"@ =~= seq!['•']);
}

/// Risk is low up to two, medium up to seven and high beyond.
pub proof fn law_risk_label_of_each_score(score: nat)
    ensures
        0 <= score <= 2 ==> risk_label_of(score) == seq!['L', 'o', 'w'],
        3 <= score <= 7 ==> risk_label_of(score) == seq!['M', 'e', 'd', 'i', 'u', 'm'],
        8 <= score ==> risk_label_of(score) == seq!['H', 'i', 'g', 'h'],
{
    reveal_strlit("Low");
    reveal_strlit("Medium");
    reveal_strlit("High");
    assert("Low"@ =~= seq!['L', 'o', 'w']);
    assert("Medium"@ =~= seq!['M', 'e', 'd', 'i', 'u', 'm']);
    assert("High"@ =~= seq!['H', 'i', 'g', 'h']);
}

/// The label of a report is that of its score.
pub proof fn law_report_is_labelled_by_its_score(
    r: Report,
    es: Seq<AuditEntry>,
    manifest: Seq<BackupRecord>,
)
    requires
        reports(r, es, manifest),
    ensures
        r.risk_score <= 2 ==> r.risk_label@ == seq!['L', 'o', 'w'],
        3 <= r.risk_score <= 7 ==> r.risk_label@ == seq!['M', 'e', 'd', 'i', 'u', 'm'],
        8 <= r.risk_score ==> r.risk_label@ == seq!['H', 'i', 'g', 'h'],
{
    law_risk_label_of_each_score(risk(es));
}

/// Whether the circuit breaker escalated `e`.
pub open spec fn by_breaker(e: AuditEntry) -> bool {
    is_text(e.matched_rule, "circuit-breaker"@)
}

/// Whether `e` is the receipt of a rollback.
pub open spec fn is_rollback_receipt(e: AuditEntry) -> bool {
    e.source@ == "post"@ && occurs_in("rollback"@, e.command@)
}

/// What a report of one entry says.
pub proof fn law_report_of_one_entry(r: Report, e: AuditEntry, manifest: Seq<BackupRecord>)
    requires
        reports(r, seq![e], manifest),
    ensures
        r.total == 1,
        r.allow == one_if(e.decision@ == "allow"@),
        r.ask == one_if(e.decision@ == "ask"@),
        r.deny == one_if(e.decision@ == "deny"@),
        r.escalated == one_if(e.escalated),
        r.auto_flow == one_if(e.decision@ == "allow"@),
        r.rollbacks == one_if(is_rollback_receipt(e)),
        r.breaker_trips == one_if(by_breaker(e)),
        r.risk_score == 3 * one_if(e.decision@ == "deny"@) + 2 * one_if(e.escalated) + one_if(
            e.decision@ == "ask"@,
        ),
        texts(r.blocked@) == if e.decision@ == "deny"@ {
            seq![e.command@]
        } else {
            Seq::empty()
        },
        texts(r.impacts@) == if e.decision@ != "allow"@ && e.preview is Some {
            seq![e.preview->0@]
        } else {
            Seq::empty()
        },
        e.backup is None || has_no_record(manifest, e.backup->0@) ==> pairs(r.backups@)
            == Seq::<(Seq<char>, Seq<char>)>::empty(),
        forall|p: (Seq<char>, Seq<char>)|
            e.backup is Some && #[trigger] is_last_record(manifest, e.backup->0@, p) ==> pairs(
                r.backups@,
            ) == seq![p],
        marked(r.recent@) == seq![(mark_of(e.decision@, e.source@), e.command@)],
{
    let none = Seq::<AuditEntry>::empty();
    let no_ids = Seq::<Seq<char>>::empty();
    assert(seq![e] =~= none.push(e));
    lemma_count_push(none, e, decided("allow"@));
    lemma_count_push(none, e, decided("ask"@));
    lemma_count_push(none, e, decided("deny"@));
    lemma_count_push(none, e, escalated());
    lemma_count_push(none, e, rolled_back());
    lemma_count_push(none, e, tripped());
    lemma_kept_push(none, e, blocked_command());
    lemma_kept_push(none, e, impact());
    lemma_kept_push(none, e, backup_id());
    if e.decision@ != "allow"@ && e.preview is Some {
        lemma_dedup_push(no_ids, e.preview->0@);
    }
    assert(no_ids.push(e.command@) =~= seq![e.command@]);
    if e.backup is Some {
        let id = e.backup->0@;
        law_last_record_counts(manifest, id);
        lemma_kept_push(no_ids, id, insured(manifest));
        if lookup(manifest, id) is Some {
            lemma_dedup_push(Seq::<(Seq<char>, Seq<char>)>::empty(), lookup(manifest, id)->0);
        }
    }
    assert(tail(seq![e], 6) == seq![e]);
    assert(seq![e].map_values(event()) =~= seq![
        (mark_of(e.decision@, e.source@), e.command@),
    ]);
}

proof fn lemma_recent_push(es: Seq<AuditEntry>, e: AuditEntry)
    ensures
        ({
            let was = tail(es, 6).map_values(event());
            let ev = (mark_of(e.decision@, e.source@), e.command@);
            tail(es.push(e), 6).map_values(event()) == if was.len() < 6 {
                was.push(ev)
            } else {
                was.skip(1).push(ev)
            }
        }),
{
    let was = tail(es, 6).map_values(event());
    let ev = (mark_of(e.decision@, e.source@), e.command@);
    let is = tail(es.push(e), 6).map_values(event());
    if es.len() < 6 {
        assert(is =~= was.push(ev));
    } else {
        assert(was.len() == 6);
        assert(is =~= was.skip(1).push(ev));
    }
}

/// What one more entry changes in a report, `a` being the report without it and
/// `b` the report with it. Each count grows by what the entry is; a denied
/// command, a preview of what was not simply allowed and a backup that the
/// manifest knows are added to their lists, the latter two only if they do not
/// stand at the end of it already; the recent events move on by one, from six
/// on; and the risk grows by three for a denial, two for an escalation and one
/// for a question.
pub proof fn law_one_more_entry(
    a: Report,
    b: Report,
    es: Seq<AuditEntry>,
    e: AuditEntry,
    manifest: Seq<BackupRecord>,
)
    requires
        es.len() > 0,
        reports(a, es, manifest),
        reports(b, es.push(e), manifest),
    ensures
        b.first_ts@ == a.first_ts@,
        b.last_ts@ == e.ts@,
        b.total == a.total + 1,
        b.allow == a.allow + one_if(e.decision@ == "allow"@),
        b.ask == a.ask + one_if(e.decision@ == "ask"@),
        b.deny == a.deny + one_if(e.decision@ == "deny"@),
        b.escalated == a.escalated + one_if(e.escalated),
        b.auto_flow == a.auto_flow + one_if(e.decision@ == "allow"@),
        b.rollbacks == a.rollbacks + one_if(is_rollback_receipt(e)),
        b.breaker_trips == a.breaker_trips + one_if(by_breaker(e)),
        b.risk_score == a.risk_score + 3 * one_if(e.decision@ == "deny"@) + 2 * one_if(e.escalated)
            + one_if(e.decision@ == "ask"@),
        texts(b.blocked@) == if e.decision@ == "deny"@ {
            texts(a.blocked@).push(e.command@)
        } else {
            texts(a.blocked@)
        },
        texts(b.impacts@) == if e.decision@ != "allow"@ && e.preview is Some {
            followed_by(texts(a.impacts@), e.preview->0@)
        } else {
            texts(a.impacts@)
        },
        e.backup is None || has_no_record(manifest, e.backup->0@) ==> pairs(b.backups@) == pairs(
            a.backups@,
        ),
        forall|p: (Seq<char>, Seq<char>)|
            e.backup is Some && #[trigger] is_last_record(manifest, e.backup->0@, p) ==> pairs(
                b.backups@,
            ) == followed_by(pairs(a.backups@), p),
        ({
            let was = marked(a.recent@);
            let ev = (mark_of(e.decision@, e.source@), e.command@);
            marked(b.recent@) == if was.len() < 6 {
                was.push(ev)
            } else {
                was.skip(1).push(ev)
            }
        }),
{
    assert(es.push(e).first() == es.first());
    lemma_count_push(es, e, decided("allow"@));
    lemma_count_push(es, e, decided("ask"@));
    lemma_count_push(es, e, decided("deny"@));
    lemma_count_push(es, e, escalated());
    lemma_count_push(es, e, rolled_back());
    lemma_count_push(es, e, tripped());
    lemma_kept_push(es, e, blocked_command());
    lemma_kept_push(es, e, impact());
    lemma_kept_push(es, e, backup_id());
    if e.decision@ != "allow"@ && e.preview is Some {
        lemma_dedup_push(es.filter_map(impact()), e.preview->0@);
    }
    if e.backup is Some {
        let id = e.backup->0@;
        let ids = es.filter_map(backup_id());
        law_last_record_counts(manifest, id);
        lemma_kept_push(ids, id, insured(manifest));
        if lookup(manifest, id) is Some {
            lemma_dedup_push(ids.filter_map(insured(manifest)), lookup(manifest, id)->0);
        }
    }
    lemma_recent_push(es, e);
}

/// How many of `es` are classified as the intent `l`.
pub open spec fn classified(es: Seq<AuditEntry>, l: Seq<char>) -> nat {
    es.filter(|e: AuditEntry| is_text(e.intent, l)).len()
}

/// How many of `es` are classified as the intent `l` and were escalated by the
/// circuit breaker.
pub open spec fn blocked(es: Seq<AuditEntry>, l: Seq<char>) -> nat {
    es.filter(|e: AuditEntry| by_breaker(e) && is_text(e.intent, l)).len()
}

/// Whether `list` holds each label that `n` counts at all, once and with its
/// count, the more frequent first and equals in the order of texts.
pub open spec fn lists_in_order(
    list: Seq<(Seq<char>, nat)>,
    n: spec_fn(Seq<char>) -> nat,
) -> bool {
    &&& forall|i: int| 0 <= i < list.len() ==> (#[trigger] list[i]).1 == n(list[i].0) > 0
    &&& forall|i: int, j: int|
        0 <= i < j < list.len() ==> (#[trigger] list[i]).1 > (#[trigger] list[j]).1 || (list[i].1
            == list[j].1 && before(list[i].0, list[j].0))
    &&& forall|l: Seq<char>| #[trigger]
        n(l) > 0 ==> exists|i: int| 0 <= i < list.len() && (#[trigger] list[i]).0 == l
}

proof fn lemma_ranking_lists(
    list: Seq<(Seq<char>, nat)>,
    labels: Seq<Seq<char>>,
    n: spec_fn(Seq<char>) -> nat,
)
    requires
        is_ranking(list, labels),
        forall|l: Seq<char>| #[trigger] n(l) == times(labels, l),
    ensures
        lists_in_order(list, n),
{
    assert forall|i: int| 0 <= i < list.len() implies (#[trigger] list[i]).1 == n(list[i].0)
        > 0 by {
        lemma_times_bound(labels, list[i].0);
    }
    assert forall|i: int, j: int| 0 <= i < j < list.len() implies (#[trigger] list[i]).1 > (
    #[trigger] list[j]).1 || (list[i].1 == list[j].1 && before(list[i].0, list[j].0)) by {
        assert(ahead(list[i], list[j]));
    }
    assert forall|l: Seq<char>| #[trigger] n(l) > 0 implies exists|i: int|
        0 <= i < list.len() && (#[trigger] list[i]).0 == l by {
        lemma_times_bound(labels, l);
    }
}

/// A label occurs once more where it is added, and any other as often as before.
pub proof fn law_one_more_label(labels: Seq<Seq<char>>, x: Seq<char>, l: Seq<char>)
    ensures
        times(labels.push(x), l) == times(labels, l) + one_if(x == l),
        times(Seq::empty(), l) == 0,
{
    assert(labels.push(x).drop_last() =~= labels);
}

proof fn lemma_times_of_labels(
    es: Seq<AuditEntry>,
    f: spec_fn(AuditEntry) -> Option<Seq<char>>,
    p: spec_fn(AuditEntry) -> bool,
    l: Seq<char>,
)
    requires
        forall|e: AuditEntry| #[trigger] p(e) == (f(e) == Some(l)),
    ensures
        times(es.filter_map(f), l) == es.filter(p).len(),
    decreases es.len(),
{
    if es.len() > 0 {
        let less = es.drop_last();
        let e = es.last();
        lemma_times_of_labels(less, f, p, l);
        assert(less.push(e) =~= es);
        lemma_count_push(less, e, p);
        lemma_kept_push(less, e, f);
        assert(p(e) == (f(e) == Some(l)));
        if f(e) is Some {
            law_one_more_label(less.filter_map(f), f(e)->0, l);
        }
    } else {
        reveal(Seq::filter);
    }
}

/// The intents of a report are the labels that entries are classified as, each
/// with how many of them there are; the trips are the labels of the entries
/// that the circuit breaker escalated, each with how many of those there are.
/// Both are in order: the more frequent first, and equals in the order of
/// texts.
pub proof fn law_intents_are_counted_and_ranked(
    r: Report,
    es: Seq<AuditEntry>,
    manifest: Seq<BackupRecord>,
)
    requires
        reports(r, es, manifest),
    ensures
        lists_in_order(counts(r.intents@), |l: Seq<char>| classified(es, l)),
        lists_in_order(counts(r.trips_by_intent@), |l: Seq<char>| blocked(es, l)),
{
    let n = |l: Seq<char>| classified(es, l);
    let m = |l: Seq<char>| blocked(es, l);
    let intents = es.filter_map(intent_label());
    let trips = es.filter_map(tripped_label());
    assert forall|l: Seq<char>| #[trigger] n(l) == times(intents, l) by {
        lemma_times_of_labels(es, intent_label(), |e: AuditEntry| is_text(e.intent, l), l);
    }
    assert forall|l: Seq<char>| #[trigger] m(l) == times(trips, l) by {
        lemma_times_of_labels(
            es,
            tripped_label(),
            |e: AuditEntry| by_breaker(e) && is_text(e.intent, l),
            l,
        );
    }
    lemma_ranking_lists(counts(r.intents@), intents, n);
    lemma_ranking_lists(counts(r.trips_by_intent@), trips, m);
}

/// Whether `e` is in the window of so many days before `now_ms`.
pub open spec fn in_window(e: AuditEntry, days: u64, now_ms: u128) -> bool {
    e.ts_ms + days * 86_400_000 >= now_ms
}

/// Whether a session was seen in the window.
pub open spec fn session_seen(
    all: Seq<AuditEntry>,
    s: Seq<char>,
    days: u64,
    now_ms: u128,
) -> bool {
    exists|k: int|
        0 <= k < all.len() && in_window(#[trigger] all[k], days, now_ms) && is_text(
            all[k].session,
            s,
        )
}

proof fn lemma_session_seen(all: Seq<AuditEntry>, s: Seq<char>, days: u64, now_ms: u128)
    ensures
        session_seen(all, s, days, now_ms) == all.filter(
            since(cutoff(days, now_ms)),
        ).filter_map(session_id()).contains(s),
    decreases all.len(),
{
    let p = since(cutoff(days, now_ms));
    let f = session_id();
    reveal(Seq::filter);
    if all.len() > 0 {
        let less = all.drop_last();
        let e = all.last();
        let n = all.len() - 1;
        lemma_session_seen(less, s, days, now_ms);
        assert(less.push(e) =~= all);
        lemma_count_push(less, e, p);
        lemma_kept_push(less.filter(p), e, f);
        assert(p(e) == in_window(e, days, now_ms));
        let was = less.filter(p).filter_map(f);
        let is = all.filter(p).filter_map(f);
        if session_seen(less, s, days, now_ms) {
            let k = choose|k: int|
                0 <= k < less.len() && in_window(#[trigger] less[k], days, now_ms) && is_text(
                    less[k].session,
                    s,
                );
            assert(all[k] == less[k]);
            assert(session_seen(all, s, days, now_ms));
            let i = choose|i: int| 0 <= i < was.len() && was[i] == s;
            assert(is[i] == s);
        } else if p(e) && f(e) == Some(s) {
            assert(all[n] == e);
            assert(session_seen(all, s, days, now_ms));
            assert(is[is.len() - 1] == s);
        } else {
            if session_seen(all, s, days, now_ms) {
                let k = choose|k: int|
                    0 <= k < all.len() && in_window(#[trigger] all[k], days, now_ms) && is_text(
                        all[k].session,
                        s,
                    );
                if k < n {
                    assert(less[k] == all[k]);
                }
            }
            if is.contains(s) {
                let i = choose|i: int| 0 <= i < is.len() && is[i] == s;
                if i < was.len() {
                    assert(was[i] == s);
                }
            }
        }
    }
}

/// What one more entry of the log changes in a rollup, `a` being the rollup
/// without it and `b` the rollup with it: nothing if it is older than the
/// window, else each count grows by what the entry is, and the sessions by one
/// if the entry is the first of its session there.
pub proof fn law_one_more_entry_in_the_log(
    a: Rollup,
    b: Rollup,
    all: Seq<AuditEntry>,
    e: AuditEntry,
    days: u64,
    now_ms: u128,
)
    requires
        rolls_up(a, all, days, now_ms),
        rolls_up(b, all.push(e), days, now_ms),
    ensures
        a.days == days && b.days == days,
        ({
            let x = one_if(in_window(e, days, now_ms));
            &&& b.commands == a.commands + x
            &&& b.allow == a.allow + x * one_if(e.decision@ == "allow"@)
            &&& b.ask == a.ask + x * one_if(e.decision@ == "ask"@)
            &&& b.deny == a.deny + x * one_if(e.decision@ == "deny"@)
            &&& b.backups == a.backups + x * one_if(e.backup is Some)
            &&& b.breaker_trips == a.breaker_trips + x * one_if(by_breaker(e))
            &&& b.sessions == a.sessions + x * one_if(
                e.session is Some && !session_seen(all, e.session->0@, days, now_ms),
            )
        }),
{
    let p = since(cutoff(days, now_ms));
    let w = all.filter(p);
    lemma_count_push(all, e, p);
    assert(p(e) == in_window(e, days, now_ms));
    lemma_count_push(w, e, decided("allow"@));
    lemma_count_push(w, e, decided("ask"@));
    lemma_count_push(w, e, decided("deny"@));
    lemma_count_push(w, e, backed_up());
    lemma_count_push(w, e, tripped());
    lemma_kept_push(w, e, session_id());
    if p(e) && e.session is Some {
        let s = e.session->0@;
        let ids = w.filter_map(session_id());
        lemma_session_seen(all, s, days, now_ms);
        vstd::seq_lib::seq_to_set_is_finite(ids);
        assert(ids.push(s).to_set() =~= ids.to_set().insert(s)) by {
            assert forall|x: Seq<char>| #[trigger] ids.push(s).to_set().contains(x) ==
                ids.to_set().insert(s).contains(x) by {
                if ids.contains(x) {
                    let i = choose|i: int| 0 <= i < ids.len() && ids[i] == x;
                    assert(ids.push(s)[i] == x);
                }
                if x == s {
                    assert(ids.push(s)[ids.len() as int] == x);
                }
                if ids.push(s).contains(x) {
                    let i = choose|i: int| 0 <= i < ids.push(s).len() && ids.push(s)[i] == x;
                    if i < ids.len() {
                        assert(ids[i] == x);
                    }
                }
            }
        }
    }
}

/// An empty log rolls up to nothing.
pub proof fn law_empty_log_rolls_up_to_nothing(r: Rollup, days: u64, now_ms: u128)
    requires
        rolls_up(r, Seq::empty(), days, now_ms),
    ensures
        r.days == days,
        r.sessions == 0,
        r.commands == 0,
        r.allow == 0,
        r.ask == 0,
        r.deny == 0,
        r.backups == 0,
        r.breaker_trips == 0,
{
    reveal(Seq::filter);
    let w = Seq::<AuditEntry>::empty().filter(since(cutoff(days, now_ms)));
    assert(w =~= Seq::<AuditEntry>::empty());
    assert(w.filter_map(session_id()) =~= Seq::<Seq<char>>::empty());
    assert(w.filter_map(session_id()).to_set() =~= Set::<Seq<char>>::empty());
}

/// Whether `c` separates the parts of a path.
pub open spec fn separates(c: char) -> bool {
    c == '/' || c == '\\'
}

proof fn lemma_last_part(a: Seq<char>, name: Seq<char>)
    requires
        a.len() > 0 ==> separates(a[a.len() - 1]),
        forall|i: int| 0 <= i < name.len() ==> !separates(#[trigger] name[i]),
    ensures
        last_part(a + name) == name,
    decreases name.len(),
{
    let s = a + name;
    if name.len() > 0 {
        let less = name.drop_last();
        assert(s.drop_last() =~= a + less);
        assert(s.last() == name[name.len() - 1]);
        assert forall|i: int| 0 <= i < less.len() implies !separates(#[trigger] less[i]) by {
            assert(less[i] == name[i]);
        }
        lemma_last_part(a, less);
        assert(less.push(name.last()) =~= name);
    } else {
        assert(s =~= a);
    }
}

/// The directory of a path is its last part that is not empty: what stands
/// between the last separator before it and the separators at the end.
pub proof fn law_last_part_names_the_directory(a: Seq<char>, name: Seq<char>, end: Seq<char>)
    requires
        a.len() > 0 ==> separates(a[a.len() - 1]),
        forall|i: int| 0 <= i < name.len() ==> !separates(#[trigger] name[i]),
        forall|i: int| 0 <= i < end.len() ==> separates(#[trigger] end[i]),
    ensures
        name.len() > 0 ==> basename(a + name + end) == name,
        basename(end) == Seq::<char>::empty(),
    decreases end.len(),
{
    let s = a + name + end;
    if end.len() > 0 {
        let less = end.drop_last();
        assert(s.drop_last() =~= a + name + less);
        assert(s.last() == end[end.len() - 1]);
        assert(end.last() == end[end.len() - 1]);
        assert forall|i: int| 0 <= i < less.len() implies separates(#[trigger] less[i]) by {
            assert(less[i] == end[i]);
        }
        law_last_part_names_the_directory(a, name, less);
    } else {
        assert(s =~= a + name);
        if name.len() > 0 {
            assert(s.last() == name[name.len() - 1]);
            lemma_last_part(a, name);
        }
    }
}

/// How many entries of the window were made in a directory of this name.
pub open spec fn made_in(all: Seq<AuditEntry>, d: Seq<char>, days: u64, now_ms: u128) -> nat {
    all.filter(
        |e: AuditEntry| in_window(e, days, now_ms) && d.len() > 0 && basename(e.cwd@) == d,
    ).len()
}

proof fn lemma_made_in(all: Seq<AuditEntry>, d: Seq<char>, days: u64, now_ms: u128)
    ensures
        made_in(all, d, days, now_ms) == times(
            all.filter(since(cutoff(days, now_ms))).filter_map(directory()),
            d,
        ),
    decreases all.len(),
{
    let p = since(cutoff(days, now_ms));
    let q = |e: AuditEntry| in_window(e, days, now_ms) && d.len() > 0 && basename(e.cwd@) == d;
    reveal(Seq::filter);
    if all.len() > 0 {
        let less = all.drop_last();
        let e = all.last();
        lemma_made_in(less, d, days, now_ms);
        assert(less.push(e) =~= all);
        lemma_count_push(less, e, p);
        lemma_count_push(less, e, q);
        lemma_kept_push(less.filter(p), e, directory());
        assert(p(e) == in_window(e, days, now_ms));
        if basename(e.cwd@).len() > 0 {
            law_one_more_label(less.filter(p).filter_map(directory()), basename(e.cwd@), d);
        }
    }
}

/// The top directories of a rollup are the names under which most entries of
/// the window were made, at most three: each has entries, they stand in order,
/// and a name that is left out has no more entries than any of them, and none
/// at all while there is room.
pub proof fn law_top_directories_have_most_entries(
    r: Rollup,
    all: Seq<AuditEntry>,
    days: u64,
    now_ms: u128,
)
    requires
        rolls_up(r, all, days, now_ms),
    ensures
        ({
            let top = texts(r.top_directories@);
            let n = |d: Seq<char>| made_in(all, d, days, now_ms);
            &&& top.len() <= 3
            &&& forall|i: int| 0 <= i < top.len() ==> n(#[trigger] top[i]) > 0
            &&& forall|i: int, j: int|
                0 <= i < j < top.len() ==> n(#[trigger] top[i]) > n(#[trigger] top[j]) || (n(
                    top[i],
                ) == n(top[j]) && before(top[i], top[j]))
            &&& forall|d: Seq<char>, i: int|
                #![trigger n(d), top[i]]
                0 <= i < top.len() && !top.contains(d) && n(d) > 0 ==> n(top[i]) > n(d) || (n(
                    top[i],
                ) == n(d) && before(top[i], d))
            &&& forall|d: Seq<char>| #[trigger] n(d) > 0 && !top.contains(d) ==> top.len() == 3
        }),
{
    let top = texts(r.top_directories@);
    let n = |d: Seq<char>| made_in(all, d, days, now_ms);
    let labels = all.filter(since(cutoff(days, now_ms))).filter_map(directory());
    let c = choose|c: Seq<(Seq<char>, nat)>|
        #[trigger] is_ranking(c, labels) && top == leaders(c, 3);
    assert forall|d: Seq<char>| #[trigger] n(d) == times(labels, d) by {
        lemma_made_in(all, d, days, now_ms);
    }
    lemma_ranking_lists(c, labels, n);
    assert forall|i: int| 0 <= i < top.len() implies #[trigger] top[i] == c[i].0 && n(top[i])
        == c[i].1 by {
        assert(c[i].1 == n(c[i].0));
    }
    assert forall|d: Seq<char>| #[trigger] n(d) > 0 && !top.contains(d) implies top.len() == 3
        && forall|i: int|
        0 <= i < top.len() ==> n(#[trigger] top[i]) > n(d) || (n(top[i]) == n(d) && before(
            top[i],
            d,
        )) by {
        let k = choose|k: int| 0 <= k < c.len() && (#[trigger] c[k]).0 == d;
        if k < top.len() {
            assert(top[k] == d);
        }
        assert(c[k].1 == n(d));
        assert forall|i: int| 0 <= i < top.len() implies n(#[trigger] top[i]) > n(d) || (n(top[i])
            == n(d) && before(top[i], d)) by {
            assert(c[i].1 > c[k].1 || (c[i].1 == c[k].1 && before(c[i].0, c[k].0)));
        }
    }
}

/// A session selects its own entries, in order, and no other; without a session
/// all are selected.
pub proof fn law_session_selects_its_entries(all: Seq<AuditEntry>, e: AuditEntry, s: Seq<char>)
    ensures
        selected(all, None) == all,
        selected(Seq::empty(), Some(s)) == Seq::<AuditEntry>::empty(),
        selected(all.push(e), Some(s)) == if is_text(e.session, s) {
            selected(all, Some(s)).push(e)
        } else {
            selected(all, Some(s))
        },
{
    lemma_count_push(all, e, of_session(s));
    reveal(Seq::filter);
    assert(selected(Seq::empty(), Some(s)) =~= Seq::<AuditEntry>::empty());
}

/// A run is possible where no entry is in scope, and else where the risk of
/// those that are fits in thirty-two bits and the session, if there is one, can
/// be cut.
pub proof fn law_when_a_run_is_possible(all: Seq<AuditEntry>, scope: Scope)
    ensures
        ({
            let session = scoped_session(all, scope);
            let es = selected(all, session);
            let deny = es.filter(|e: AuditEntry| e.decision@ == "deny"@).len();
            let asked = es.filter(|e: AuditEntry| e.decision@ == "ask"@).len();
            let raised = es.filter(|e: AuditEntry| e.escalated).len();
            can_run(all, scope) <==> es.len() == 0 || (3 * deny + 2 * raised + asked
                <= 0xffff_ffff && (session is None || can_shorten(session->0)))
        }),
{
    let es = selected(all, scoped_session(all, scope));
    lemma_same_filter(es, decided("deny"@), |e: AuditEntry| e.decision@ == "deny"@);
    lemma_same_filter(es, decided("ask"@), |e: AuditEntry| e.decision@ == "ask"@);
    lemma_same_filter(es, escalated(), |e: AuditEntry| e.escalated);
}

proof fn lemma_same_filter(
    es: Seq<AuditEntry>,
    p: spec_fn(AuditEntry) -> bool,
    q: spec_fn(AuditEntry) -> bool,
)
    requires
        forall|e: AuditEntry| #[trigger] p(e) == q(e),
    ensures
        es.filter(p) == es.filter(q),
    decreases es.len(),
{
    reveal(Seq::filter);
    if es.len() > 0 {
        lemma_same_filter(es.drop_last(), p, q);
        assert(p(es.last()) == q(es.last()));
    }
}

/// How a run ends: without entries it says so and succeeds; where the session
/// that was asked for has none it says so and fails; else it succeeds.
pub proof fn law_how_a_run_ends(
    o: Outcome,
    all: Seq<AuditEntry>,
    manifest: Seq<BackupRecord>,
    scope: Scope,
    markdown: bool,
    colour: bool,
    now_ms: u128,
)
    requires
        ran(o, all, manifest, scope, markdown, colour, now_ms),
    ensures
        all.len() == 0 ==> o.code == 0 && o.text@ == "(no activity to report)\n"@,
        all.len() > 0 && !scope.all && scope.session is Some && (forall|k: int|
            0 <= k < all.len() ==> !is_text((#[trigger] all[k]).session, scope.session->0@))
            ==> o.code == 1 && o.text@ == "(no entries for session "@ + scope.session->0@ + ")\n"@,
        all.len() > 0 && (scope.all || scope.session is None || exists|k: int|
            0 <= k < all.len() && is_text((#[trigger] all[k]).session, scope.session->0@)) ==> o.code
            == 0,
{
    let session = scoped_session(all, scope);
    let es = selected(all, session);
    if all.len() > 0 {
        if !scope.all && scope.session is Some {
            let s = scope.session->0@;
            let p = of_session(s);
            if forall|k: int| 0 <= k < all.len() ==> !is_text((#[trigger] all[k]).session, s) {
                assert forall|k: int| 0 <= k < all.len() implies !p(#[trigger] all[k]) by {
                    assert(!is_text(all[k].session, s));
                }
                all.lemma_all_neg_filter_empty(p);
            } else {
                let k = choose|k: int|
                    0 <= k < all.len() && is_text((#[trigger] all[k]).session, s);
                broadcast use vstd::seq_lib::group_filter_ensures;

                assert(p(all[k]));
                assert(all.filter(p).contains(all[k]));
            }
        } else {
            lemma_scope_has_entries(all, scope);
        }
    }
}

/// A run that has entries to report on prints their report, with the rollup of
/// the whole log over the days that were asked for: in Markdown where that was
/// asked for, else for a terminal.
pub proof fn law_run_prints_its_report(
    o: Outcome,
    all: Seq<AuditEntry>,
    manifest: Seq<BackupRecord>,
    scope: Scope,
    markdown: bool,
    colour: bool,
    now_ms: u128,
) -> (z: (Report, Rollup))
    requires
        ran(o, all, manifest, scope, markdown, colour, now_ms),
        selected(all, scoped_session(all, scope)).len() > 0,
    ensures
        reports(z.0, selected(all, scoped_session(all, scope)), manifest),
        rolls_up(z.1, all, scope.days, now_ms),
        markdown ==> o.text@ == markdown_text(z.0, z.1, scoped_session(all, scope)),
        !markdown ==> o.text@ == terminal_text(z.0, z.1, scoped_session(all, scope), colour),
{
    let session = scoped_session(all, scope);
    let es = selected(all, session);
    if all.len() == 0 {
        reveal(Seq::filter);
    }
    choose|r: Report, roll: Rollup|
        #[trigger] reports(r, es, manifest) && #[trigger] rolls_up(roll, all, scope.days, now_ms)
            && o.text@ == if markdown {
            markdown_text(r, roll, session)
        } else {
            terminal_text(r, roll, session, colour)
        }
}

proof fn lemma_scope_has_entries(all: Seq<AuditEntry>, scope: Scope)
    requires
        all.len() > 0,
        scope.all || scope.session is None,
    ensures
        selected(all, scoped_session(all, scope)).len() > 0,
{
    let seen = all.filter_map(session_id());
    if !scope.all && seen.len() > 0 {
        let s = seen.last();
        let k = lemma_last_session(all);
        broadcast use vstd::seq_lib::group_filter_ensures;

        assert(of_session(s)(all[k]));
        assert(all.filter(of_session(s)).contains(all[k]));
    }
}

} // verus!
