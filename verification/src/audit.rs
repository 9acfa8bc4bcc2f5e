//! The audit log: one JSON object to a line, appended to and never rewritten.
//!
//! A log is held here as its text. Turning an entry into a line and a line
//! into an entry is left to the caller; how lines are framed, which of them
//! count, and which part of the history is read is decided here.

use vstd::prelude::*;
use vstd::string::*;

use crate::text::{chars_of, slice_text, texts};

verus! {

/// The directory of the log, below the state directory.
pub const LOG_DIR: &'static str = "logs";

/// The file of the log, in that directory.
pub const LOG_FILE: &'static str = "audit.jsonl";

/// One gated command.
#[derive(Debug)]
pub struct AuditEntry {
    /// Unix epoch milliseconds.
    pub ts_ms: u128,
    /// Human-readable UTC timestamp.
    pub ts: String,
    /// "hook" (agent-invoked) or "run" (CLI-invoked) or "check".
    pub source: String,
    pub command: String,
    /// allow | ask | deny
    pub decision: String,
    pub matched_rule: Option<String>,
    pub reason: String,
    /// Signals the context engine observed.
    pub signals: Vec<String>,
    /// Whether context escalated the base decision.
    pub escalated: bool,
    /// Agent session that caused this entry.
    pub session: Option<String>,
    /// Backup taken before execution, if any.
    pub backup: Option<String>,
    /// Preview summary at decision time, persisted so that reports can
    /// aggregate impact as fact.
    pub preview: Option<String>,
    /// Destructive-intent classification: file-delete | db-destroy |
    /// git-destructive | infra-destroy.
    pub intent: Option<String>,
    /// For "run": did the human approve an `ask`? Otherwise `None`.
    pub approved: Option<bool>,
    /// For "run": process exit code if the command executed.
    pub exit_code: Option<i32>,
    pub cwd: String,
}

/// A line without the carriage return of a `\r\n` ending.
pub open spec fn without_cr(line: Seq<char>) -> Seq<char> {
    if line.len() > 0 && line.last() == '\r' {
        line.drop_last()
    } else {
        line
    }
}

/// The lines of `s` from position `i` on; the line being read began at
/// `from`. The last line needs no ending.
pub open spec fn lines_from(s: Seq<char>, i: int, from: int) -> Seq<Seq<char>>
    decreases s.len() - i,
{
    if i >= s.len() {
        if from < s.len() {
            seq![s.subrange(from, s.len() as int)]
        } else {
            Seq::empty()
        }
    } else if s[i] == '\n' {
        seq![without_cr(s.subrange(from, i))] + lines_from(s, i + 1, i + 1)
    } else {
        lines_from(s, i + 1, from)
    }
}

/// The lines of `s`, without their endings.
pub open spec fn lines(s: Seq<char>) -> Seq<Seq<char>> {
    lines_from(s, 0, 0)
}

/// The entries among the results of reading lines: a line that does not read
/// as an entry is passed over.
pub open spec fn legible(parsed: Seq<Option<AuditEntry>>) -> Seq<AuditEntry> {
    parsed.filter_map(|p: Option<AuditEntry>| p)
}

/// The last `n` elements of `s`, or all of them if there are fewer.
pub open spec fn tail<T>(s: Seq<T>, n: nat) -> Seq<T> {
    if s.len() > n {
        s.skip(s.len() - n)
    } else {
        s
    }
}

/// The entries that read, at most the last `n` of them, oldest first.
pub fn keep_last(parsed: Vec<Option<AuditEntry>>, n: usize) -> (kept: Vec<AuditEntry>)
    ensures
        kept@ == tail(legible(parsed@), n as nat),
{
    let ghost all = parsed@;
    let mut kept: Vec<AuditEntry> = Vec::new();
    for p in it: parsed
        invariant
            it.seq() == all,
            kept@ == legible(all.take(it.index())),
    {
        proof {
            assert(all.take(it.index() + 1).drop_last() == all.take(it.index()));
        }
        if let Some(e) = p {
            kept.push(e);
        }
    }
    assert(all.take(all.len() as int) == all);
    let len: usize = kept.len();
    if len > n {
        kept.split_off(len - n)
    } else {
        kept
    }
}

/// Whether `parse` may answer `p` for the line `text`.
pub open spec fn reads_as<F: Fn(&str) -> Option<AuditEntry>>(
    parse: F,
    text: Seq<char>,
    p: Option<AuditEntry>,
) -> bool {
    exists|line: &str| line@ == text && #[trigger] parse.ensures((line,), p)
}

/// Whether `parsed` holds an answer of `parse` for each of the lines `text`.
pub open spec fn all_read<F: Fn(&str) -> Option<AuditEntry>>(
    parse: F,
    text: Seq<Seq<char>>,
    parsed: Seq<Option<AuditEntry>>,
) -> bool {
    parsed.len() == text.len() && forall|i: int|
        0 <= i < parsed.len() ==> reads_as(parse, text[i], #[trigger] parsed[i])
}

/// The audit log, as its text.
#[derive(Debug)]
pub struct AuditLog {
    pub text: String,
}

impl AuditLog {
    /// A log that nothing was written to yet.
    pub fn new() -> (log: AuditLog)
        ensures
            log.text@ == Seq::<char>::empty(),
    {
        AuditLog { text: String::new() }
    }

    /// Adds one record, on a line of its own.
    pub fn append(&mut self, record: &str)
        ensures
            final(self).text@ == old(self).text@ + record@ + "\n"@,
    {
        self.text.append(record);
        self.text.append("\n");
    }

    /// The lines of the log, oldest first.
    pub fn records(&self) -> (found: Vec<String>)
        ensures
            texts(found@) == lines(self.text@),
    {
        let chars = chars_of(self.text.as_str());
        let n: usize = chars.len();
        let mut found: Vec<String> = Vec::new();
        let mut from: usize = 0;
        let mut i: usize = 0;
        while i < n
            invariant
                chars@ == self.text@,
                n == chars@.len(),
                from <= i <= n,
                lines(self.text@) == texts(found@) + lines_from(self.text@, i as int, from as int),
            decreases n - i,
        {
            if chars[i] == '\n' {
                let to: usize = if from < i && chars[i - 1] == '\r' {
                    i - 1
                } else {
                    i
                };
                let ghost line = without_cr(self.text@.subrange(from as int, i as int));
                let ghost before = texts(found@);
                assert(line == self.text@.subrange(from as int, to as int));
                found.push(slice_text(&chars, from, to));
                assert(texts(found@) == before.push(line));
                assert(before + (seq![line] + lines_from(self.text@, i + 1, i + 1)) == before.push(
                    line,
                ) + lines_from(self.text@, i + 1, i + 1));
                from = i + 1;
            }
            i += 1;
        }
        if from < n {
            let ghost before = texts(found@);
            found.push(slice_text(&chars, from, n));
            assert(texts(found@) == before.push(self.text@.subrange(from as int, n as int)));
        }
        found
    }

    /// Reads the log: the last `n` lines that `parse` accepts, as entries,
    /// oldest first. A line it rejects does not make the rest unreadable.
    pub fn read_last<F: Fn(&str) -> Option<AuditEntry>>(&self, parse: F, n: usize) -> (entries: Vec<
        AuditEntry,
    >)
        requires
            forall|line: &str| parse.requires((line,)),
        ensures
            exists|parsed: Seq<Option<AuditEntry>>|
                #[trigger] all_read(parse, lines(self.text@), parsed) && entries@ == tail(
                    legible(parsed),
                    n as nat,
                ),
    {
        let found = self.records();
        let mut parsed: Vec<Option<AuditEntry>> = Vec::new();
        let mut i: usize = 0;
        while i < found.len()
            invariant
                texts(found@) == lines(self.text@),
                i <= found@.len(),
                parsed@.len() == i,
                forall|line: &str| parse.requires((line,)),
                all_read(parse, lines(self.text@).take(i as int), parsed@),
            decreases found@.len() - i,
        {
            let line = found[i].as_str();
            let p = parse(line);
            assert(line@ == texts(found@)[i as int]);
            assert(parse.ensures((line,), p));
            assert(reads_as(parse, lines(self.text@)[i as int], p));
            let ghost before = parsed@;
            parsed.push(p);
            i += 1;
            assert(forall|k: int| 0 <= k < i - 1 ==> parsed@[k] == #[trigger] before[k]);
        }
        assert(lines(self.text@).take(i as int) == lines(self.text@));
        assert(all_read(parse, lines(self.text@), parsed@));
        keep_last(parsed, n)
    }
}

#[verifier::external_type_specification]
#[verifier::external_body]
pub struct ExSystemTime(std::time::SystemTime);

#[verifier::external_type_specification]
#[verifier::external_body]
pub struct ExSystemTimeError(std::time::SystemTimeError);

/// `SystemTime::now` reads the system clock. Nothing is said of what it shows.
pub assume_specification[ std::time::SystemTime::now ]() -> std::time::SystemTime
;

/// `Duration::as_millis` gives the whole milliseconds in a duration. Nothing
/// is said of the number, which comes from the clock.
pub assume_specification[ std::time::Duration::as_millis ](d: &std::time::Duration) -> u128
;

/// `SystemTime::duration_since`, taken from the Unix epoch: the time since
/// then, or an error if the clock stands before it.
#[verifier::external_body]
fn since_epoch(t: std::time::SystemTime) -> Result<
    std::time::Duration,
    std::time::SystemTimeError,
> {
    t.duration_since(std::time::UNIX_EPOCH)
}

/// The last second of the years that chrono can represent.
pub const MAX_SECONDS: i64 = 8_210_266_876_799;

/// How log entries write their time.
pub const STAMP_FORMAT: &'static str = "%Y-%m-%dT%H:%M:%SZ";

/// What chrono writes for a second since the Unix epoch, in UTC, under a
/// format.
pub uninterp spec fn utc_text(secs: i64, format: Seq<char>) -> Seq<char>;

/// `chrono::DateTime::format` writes a time under a format. The text depends
/// on the second and the format alone. A format that it does not understand
/// stops the program, so only the one in use is admitted.
#[verifier::external_body]
fn format_utc(secs: i64, format: &str) -> (text: String)
    requires
        0 <= secs <= MAX_SECONDS,
        format@ == STAMP_FORMAT@,
    ensures
        text@ == utc_text(secs, format@),
{
    chrono::DateTime::<chrono::Utc>::from_timestamp(secs, 0).unwrap().format(format).to_string()
}

/// The whole seconds in a time in milliseconds since the Unix epoch, as far as
/// chrono can represent them.
pub open spec fn whole_seconds(ms: u128) -> i64 {
    if ms / 1000 <= MAX_SECONDS {
        (ms / 1000) as i64
    } else {
        MAX_SECONDS
    }
}

/// A time as milliseconds since the Unix epoch and as a UTC timestamp, both of
/// one instant. `ms` is the former; where the clock stands before the epoch
/// there is none, and the epoch itself is taken.
pub fn stamp(ms: Option<u128>) -> (r: (u128, String))
    ensures
        r.0 == (match ms {
            Some(m) => m,
            None => 0,
        }),
        r.1@ == utc_text(whole_seconds(r.0), STAMP_FORMAT@),
{
    let ms: u128 = match ms {
        Some(m) => m,
        None => 0,
    };
    let secs: i64 = if ms / 1000 <= MAX_SECONDS as u128 {
        (ms / 1000) as i64
    } else {
        MAX_SECONDS
    };
    (ms, format_utc(secs, STAMP_FORMAT))
}

/// Whether the system clock may show `ms` milliseconds since the Unix epoch:
/// the calls that read it may answer so. A clock that stands before the epoch
/// shows none.
pub closed spec fn clock_shows(ms: Option<u128>) -> bool {
    exists|t: std::time::SystemTime, d: Result<std::time::Duration, std::time::SystemTimeError>|
        #[trigger] call_ensures(std::time::SystemTime::now, (), t) && #[trigger] call_ensures(
            since_epoch,
            (t,),
            d,
        ) && match d {
            Ok(x) => ms is Some && call_ensures(std::time::Duration::as_millis, (&x,), ms->0),
            Err(_) => ms is None,
        }
}

/// Calls `f` once: what comes back is an answer that `f` may give.
fn ask<T, F: Fn() -> T>(f: F) -> (r: T)
    requires
        f.requires(()),
    ensures
        f.ensures((), r),
{
    f()
}

/// Calls `f` once, on `a`: what comes back is an answer that `f` may give.
fn ask_of<A, T, F: Fn(A) -> T>(f: F, a: A) -> (r: T)
    requires
        f.requires((a,)),
    ensures
        f.ensures((a,), r),
{
    f(a)
}

/// Reads the system clock, as milliseconds since the Unix epoch.
fn read_ms() -> (ms: Option<u128>)
    ensures
        clock_shows(ms),
{
    let t = ask(std::time::SystemTime::now);
    let d = ask_of(since_epoch, t);
    let ms: Option<u128> = match &d {
        Ok(x) => Some(ask_of(std::time::Duration::as_millis, x)),
        Err(_) => None,
    };
    ms
}

/// Whether `now_ms` may be the time, in milliseconds since the Unix epoch: the
/// clock shows it, or stands before the epoch and counts as standing at it.
pub open spec fn may_be_now(now_ms: u128) -> bool {
    clock_shows(Some(now_ms)) || (clock_shows(None) && now_ms == 0)
}

/// The time as milliseconds since the Unix epoch (zero if the clock stands
/// before it) and as a UTC timestamp, both of one instant. What the clock shows
/// is open, so nothing more is said of the number than that it was read there.
pub fn now() -> (r: (u128, String))
    ensures
        may_be_now(r.0),
        r.1@ == utc_text(whole_seconds(r.0), STAMP_FORMAT@),
{
    stamp(read_ms())
}

} // verus!
