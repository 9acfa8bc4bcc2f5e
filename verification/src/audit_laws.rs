//! What a reader of the audit log gets back of what was written to it.

use vstd::prelude::*;

use crate::audit::{
    all_read, legible, lines, lines_from, reads_as, tail, whole_seconds, without_cr, AuditEntry,
};

verus! {

/// Whether every line of the log text `s` has its ending.
pub open spec fn finished(s: Seq<char>) -> bool {
    s.len() > 0 ==> s.last() == '\n'
}

/// Whether `record` stays one line, as it is, in a log.
pub open spec fn one_line(record: Seq<char>) -> bool {
    !record.contains('\n') && (record.len() > 0 ==> record.last() != '\r')
}

proof fn lemma_lines_prefix(a: Seq<char>, b: Seq<char>, i: int, from: int)
    requires
        finished(a),
        0 <= from <= i <= a.len(),
        i == a.len() ==> from == a.len(),
    ensures
        lines_from(a + b, i, from) == lines_from(a, i, from) + lines_from(
            a + b,
            a.len() as int,
            a.len() as int,
        ),
    decreases a.len() - i,
{
    let s = a + b;
    let rest = lines_from(s, a.len() as int, a.len() as int);
    if i < a.len() {
        assert(s[i] == a[i]);
        if s[i] == '\n' {
            lemma_lines_prefix(a, b, i + 1, i + 1);
            assert(s.subrange(from, i) == a.subrange(from, i));
            let line = seq![without_cr(a.subrange(from, i))];
            assert(line + (lines_from(a, i + 1, i + 1) + rest) == line + lines_from(
                a,
                i + 1,
                i + 1,
            ) + rest);
        } else {
            lemma_lines_prefix(a, b, i + 1, from);
        }
    }
}

proof fn lemma_one_line(a: Seq<char>, record: Seq<char>, i: int)
    requires
        one_line(record),
        0 <= i <= record.len(),
    ensures
        lines_from(a + record + seq!['\n'], a.len() + i, a.len() as int) == seq![record],
    decreases record.len() - i,
{
    let s = a + record + seq!['\n'];
    if i < record.len() {
        assert(s[a.len() + i] == record[i]);
        lemma_one_line(a, record, i + 1);
    } else {
        assert(s[a.len() + i] == '\n');
        assert(s.subrange(a.len() as int, a.len() + i) == record);
        assert(lines_from(s, a.len() + i + 1, a.len() + i + 1) == Seq::<Seq<char>>::empty());
    }
}

proof fn lemma_lines_shift(x: Seq<char>, b: Seq<char>, i: int, from: int)
    requires
        0 <= from <= i <= b.len(),
    ensures
        lines_from(x + b, x.len() + i, x.len() + from) == lines_from(b, i, from),
    decreases b.len() - i,
{
    let s = x + b;
    let n = x.len() as int;
    if i < b.len() {
        assert(s[n + i] == b[i]);
        if b[i] == '\n' {
            lemma_lines_shift(x, b, i + 1, i + 1);
            assert(s.subrange(n + from, n + i) =~= b.subrange(from, i));
        } else {
            lemma_lines_shift(x, b, i + 1, from);
        }
    } else {
        assert(s.subrange(n + from, s.len() as int) =~= b.subrange(from, b.len() as int));
    }
}

/// Behind the end of a line, text has the lines that it has alone.
pub proof fn law_lines_of_both_parts(a: Seq<char>, b: Seq<char>)
    requires
        finished(a),
    ensures
        lines(a + b) == lines(a) + lines(b),
{
    lemma_lines_prefix(a, b, 0, 0);
    lemma_lines_shift(a, b, 0, 0);
}

proof fn lemma_no_line_ends(s: Seq<char>, i: int, from: int)
    requires
        0 <= from <= i <= s.len(),
        forall|k: int| i <= k < s.len() ==> #[trigger] s[k] != '\n',
    ensures
        lines_from(s, i, from) == lines_from(s, s.len() as int, from),
    decreases s.len() - i,
{
    if i < s.len() {
        assert(s[i] != '\n');
        lemma_no_line_ends(s, i + 1, from);
    }
}

proof fn lemma_line_ends_there(s: Seq<char>, i: int, end: int)
    requires
        0 <= i <= end < s.len(),
        forall|k: int| i <= k < end ==> #[trigger] s[k] != '\n',
        s[end] == '\n',
    ensures
        lines_from(s, i, 0) == lines_from(s, end, 0),
    decreases end - i,
{
    if i < end {
        assert(s[i] != '\n');
        lemma_line_ends_there(s, i + 1, end);
    }
}

/// A text without line ends is one line, unless it is empty. With a line end
/// behind it, it is one line in any case, without the carriage return that may
/// stand before the line end.
pub proof fn law_one_line_is_its_text(x: Seq<char>)
    requires
        !x.contains('\n'),
    ensures
        x.len() > 0 ==> lines(x) == seq![x],
        x.len() == 0 ==> lines(x) == Seq::<Seq<char>>::empty(),
        lines(x + seq!['\n']) == seq![
            if x.len() > 0 && x[x.len() - 1] == '\r' {
                x.take(x.len() - 1)
            } else {
                x
            },
        ],
{
    assert forall|k: int| 0 <= k < x.len() implies #[trigger] x[k] != '\n' by {
        assert(x.contains(x[k]));
    }
    lemma_no_line_ends(x, 0, 0);
    assert(x.subrange(0, x.len() as int) =~= x);
    let s = x + seq!['\n'];
    let n = x.len() as int;
    assert forall|k: int| 0 <= k < n implies #[trigger] s[k] != '\n' by {
        assert(s[k] == x[k]);
    }
    assert(s[n] == '\n');
    lemma_line_ends_there(s, 0, n);
    assert(s.subrange(0, n) =~= x);
    assert(lines_from(s, n + 1, n + 1) =~= Seq::<Seq<char>>::empty());
    assert(x.len() > 0 ==> x.drop_last() =~= x.take(x.len() - 1));
}

/// Each line is read, and each result is an answer to its own line.
pub proof fn law_every_line_is_read<F: Fn(&str) -> Option<AuditEntry>>(
    parse: F,
    text: Seq<Seq<char>>,
    parsed: Seq<Option<AuditEntry>>,
    i: int,
)
    requires
        all_read(parse, text, parsed),
        0 <= i < text.len(),
    ensures
        parsed.len() == text.len(),
        exists|line: &str| line@ == text[i] && #[trigger] parse.ensures((line,), parsed[i]),
{
    assert(reads_as(parse, text[i], parsed[i]));
}

/// What is read of results is each entry among them, in order.
pub proof fn law_each_entry_is_kept(parsed: Seq<Option<AuditEntry>>, e: AuditEntry)
    ensures
        legible(Seq::empty()) == Seq::<AuditEntry>::empty(),
        legible(parsed.push(Some(e))) == legible(parsed).push(e),
        legible(parsed.push(None)) == legible(parsed),
{
    assert(parsed.push(Some(e)).drop_last() =~= parsed);
    assert(parsed.push(None).drop_last() =~= parsed);
}

/// The last elements are the end of the list: as many as asked for, or all.
pub proof fn law_tail_is_the_end<T>(s: Seq<T>, n: nat)
    ensures
        tail(s, n).is_suffix_of(s),
        tail(s, n).len() == if s.len() < n {
            s.len()
        } else {
            n
        },
{
}

/// The second of a time in milliseconds is the one that it falls in, up to the
/// end of the years that can be written.
pub proof fn law_time_falls_in_its_second(ms: u128)
    ensures
        ms < 8_210_266_876_800_000 ==> whole_seconds(ms) * 1000 <= ms < (whole_seconds(ms) + 1)
            * 1000,
        ms >= 8_210_266_876_800_000 ==> whole_seconds(ms) == 8_210_266_876_799,
{
    if ms < 8_210_266_876_800_000 {
        assert(ms / 1000 <= 8_210_266_876_799);
        assert(whole_seconds(ms) == ms / 1000);
    }
}

/// Appending adds exactly one line at the end and leaves the others alone.
pub proof fn law_append_adds_one_line(text: Seq<char>, record: Seq<char>)
    requires
        finished(text),
        one_line(record),
    ensures
        lines(text + record + "\n"@) == lines(text).push(record),
        finished(text + record + "\n"@),
{
    reveal_strlit("\n");
    assert("\n"@ == seq!['\n']);
    assert(text + record + seq!['\n'] == text + (record + seq!['\n']));
    lemma_lines_prefix(text, record + seq!['\n'], 0, 0);
    lemma_one_line(text, record, 0);
}

/// The text of a log to which `records` were appended, in order.
pub open spec fn written(records: Seq<Seq<char>>) -> Seq<char>
    decreases records.len(),
{
    if records.len() == 0 {
        Seq::empty()
    } else {
        written(records.drop_last()) + records.last() + "\n"@
    }
}

/// A log gives back the records that were appended to it, in order.
pub proof fn law_log_keeps_its_records(records: Seq<Seq<char>>)
    requires
        forall|i: int| 0 <= i < records.len() ==> one_line(#[trigger] records[i]),
    ensures
        lines(written(records)) == records,
        finished(written(records)),
    decreases records.len(),
{
    if records.len() == 0 {
        assert(lines(written(records)) == records);
    } else {
        law_log_keeps_its_records(records.drop_last());
        law_append_adds_one_line(written(records.drop_last()), records.last());
        assert(records.drop_last().push(records.last()) == records);
    }
}

proof fn lemma_all_legible(entries: Seq<AuditEntry>)
    ensures
        legible(entries.map_values(|e: AuditEntry| Some(e))) == entries,
    decreases entries.len(),
{
    let parsed = entries.map_values(|e: AuditEntry| Some(e));
    if entries.len() > 0 {
        lemma_all_legible(entries.drop_last());
        assert(parsed.drop_last() == entries.drop_last().map_values(|e: AuditEntry| Some(e)));
        assert(entries.drop_last() + seq![entries.last()] == entries);
    }
}

/// What a read gives back of a write: where `parse` undoes `write`, the last
/// `n` entries of a log are the last `n` entries written to it, oldest first,
/// and all of them if fewer were written. `parsed` is what `parse` answers for
/// the lines of the log.
pub proof fn law_read_gives_back_what_was_written<F: Fn(&str) -> Option<AuditEntry>>(
    entries: Seq<AuditEntry>,
    write: spec_fn(AuditEntry) -> Seq<char>,
    parse: F,
    parsed: Seq<Option<AuditEntry>>,
    n: nat,
)
    requires
        forall|i: int| 0 <= i < entries.len() ==> one_line(write(#[trigger] entries[i])),
        forall|i: int, p: Option<AuditEntry>|
            0 <= i < entries.len() && #[trigger] reads_as(parse, write(entries[i]), p) ==> p == Some(
                entries[i],
            ),
        all_read(parse, lines(written(entries.map_values(write))), parsed),
    ensures
        tail(legible(parsed), n) == tail(entries, n),
{
    let records = entries.map_values(write);
    assert forall|i: int| 0 <= i < records.len() implies one_line(#[trigger] records[i]) by {
        assert(records[i] == write(entries[i]));
    }
    law_log_keeps_its_records(records);
    let some = |e: AuditEntry| Some(e);
    assert(parsed =~= entries.map_values(some)) by {
        assert forall|i: int| 0 <= i < entries.len() implies parsed[i] == Some(entries[i]) by {
            assert(reads_as(parse, records[i], parsed[i]));
            assert(records[i] == write(entries[i]));
        }
    }
    lemma_all_legible(entries);
}

proof fn lemma_legible_add(a: Seq<Option<AuditEntry>>, b: Seq<Option<AuditEntry>>)
    ensures
        legible(a + b) == legible(a) + legible(b),
    decreases b.len(),
{
    if b.len() == 0 {
        assert(a + b == a);
    } else {
        assert((a + b).drop_last() == a + b.drop_last());
        lemma_legible_add(a, b.drop_last());
    }
}

/// A line that cannot be read costs nothing but itself.
pub proof fn law_illegible_line_is_passed_over(
    a: Seq<Option<AuditEntry>>,
    b: Seq<Option<AuditEntry>>,
    n: nat,
)
    ensures
        tail(legible(a + seq![None] + b), n) == tail(legible(a + b), n),
{
    let gap = seq![None::<AuditEntry>];
    lemma_legible_add(a + gap, b);
    lemma_legible_add(a, gap);
    lemma_legible_add(a, b);
    assert(gap.drop_last() == Seq::<Option<AuditEntry>>::empty());
    reveal_with_fuel(Seq::filter_map, 2);
    assert(legible(gap) == Seq::<AuditEntry>::empty());
}

/// A read never gives more than was asked for, and all there is if that is
/// less.
pub proof fn law_read_is_bounded(entries: Seq<AuditEntry>, n: nat)
    ensures
        tail(entries, n).len() == if entries.len() < n {
            entries.len()
        } else {
            n
        },
{
}

/// Whether `parse` always answers the same for the same line.
pub open spec fn is_steady<F: Fn(&str) -> Option<AuditEntry>>(parse: F) -> bool {
    forall|text: Seq<char>, p: Option<AuditEntry>, r: Option<AuditEntry>|
        #[trigger] reads_as(parse, text, p) && #[trigger] reads_as(parse, text, r) ==> p == r
}

/// A log gives back what it gave before an append, and then the entry that was
/// appended. `before` and `after` are what `parse` answers for the lines of any
/// log whose lines are all finished, whatever else it holds, before and after
/// `record` is appended; `parse` reads the record as `entry`.
pub proof fn law_append_then_read<F: Fn(&str) -> Option<AuditEntry>>(
    text: Seq<char>,
    record: Seq<char>,
    entry: AuditEntry,
    parse: F,
    before: Seq<Option<AuditEntry>>,
    after: Seq<Option<AuditEntry>>,
    n: nat,
)
    requires
        finished(text),
        one_line(record),
        is_steady(parse),
        forall|p: Option<AuditEntry>| #[trigger] reads_as(parse, record, p) ==> p == Some(entry),
        all_read(parse, lines(text), before),
        all_read(parse, lines(text + record + "\n"@), after),
    ensures
        tail(legible(after), n + 1) == tail(legible(before), n).push(entry),
{
    law_append_adds_one_line(text, record);
    let old_lines = lines(text);
    let new_lines = lines(text + record + "\n"@);
    let k = old_lines.len() as int;
    assert(after =~= before.push(Some(entry))) by {
        assert forall|i: int| 0 <= i < k implies after[i] == before[i] by {
            assert(new_lines[i] == old_lines[i]);
            assert(reads_as(parse, old_lines[i], after[i]));
            assert(reads_as(parse, old_lines[i], before[i]));
        }
        assert(new_lines[k] == record);
        assert(reads_as(parse, record, after[k]));
    }
    assert(after.drop_last() =~= before);
    let x = legible(before);
    assert(legible(after) == x.push(entry));
    if x.len() > n {
        assert(x.push(entry).skip(x.len() - n) =~= x.skip(x.len() - n).push(entry));
    }
}

} // verus!
