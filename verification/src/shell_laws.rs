//! What holds of the shell scanner on every line.

use vstd::prelude::*;

use crate::shell::{
    at_most_one, commands, has_substitution, holds, lemma_commands_cons, lemma_redirect_end,
    operator_end, pieces, pipe_at, quotes_at, redirect_end, redirect_target, redirect_targets,
    segments, single_quotes_before, sink, skip_spaces, split_segments, substitution_at, turned,
    turns, unit, unquoted, word_end, writes, writes_from, Overwrite, Quote,
};
use crate::text::{ascii_lowercase, is_space, texts, trim, trim_end_by, trim_start_by};
use crate::text_laws::{
    law_lower_case_forgets_case_alone, law_lower_case_lowers_capitals,
    law_trimming_takes_the_ends, same_letters,
};

verus! {

/// The quote mark that is open at the end of `s`, if any, where `open` is the
/// one that is open at position `i`. In double quotes a backslash takes the next
/// character along.
pub open spec fn open_mark(s: Seq<char>, i: int, open: Option<char>) -> Option<char>
    decreases s.len() - i,
{
    if i < 0 || i >= s.len() {
        open
    } else if open is None {
        open_mark(
            s,
            i + 1,
            if s[i] == '\'' || s[i] == '"' {
                Some(s[i])
            } else {
                None
            },
        )
    } else if open == Some('"') && s[i] == '\\' && i + 1 < s.len() {
        open_mark(s, i + 2, open)
    } else {
        open_mark(
            s,
            i + 1,
            if open == Some(s[i]) {
                None
            } else {
                open
            },
        )
    }
}

/// The quote mark of the quotes `q`.
spec fn mark_of(q: Quote) -> Option<char> {
    match q {
        Quote::Bare => None,
        Quote::Single => Some('\''),
        Quote::Double => Some('"'),
    }
}

/// The quotes that hold at the end of `s`, read from position `i` in `q`.
spec fn quotes_after(s: Seq<char>, i: int, q: Quote) -> Quote
    decreases s.len() - i,
{
    if i < 0 || i >= s.len() {
        q
    } else {
        quotes_after(s, i + unit(s, i, q).width, unit(s, i, q).quote)
    }
}

/// Whether every quote opened in `s` is closed in it.
pub open spec fn closed(s: Seq<char>) -> bool {
    open_mark(s, 0, None) is None
}

/// The scanner sees the quotes that are open.
proof fn lemma_open_mark(s: Seq<char>, i: int, q: Quote)
    requires
        0 <= i,
    ensures
        open_mark(s, i, mark_of(q)) == mark_of(quotes_after(s, i, q)),
    decreases s.len() - i,
{
    if i < s.len() {
        let u = unit(s, i, q);
        lemma_open_mark(s, i + u.width, u.quote);
        if u.width == 2 && q == Quote::Bare {
            assert(s[i + 1] == s[i]);
            assert(open_mark(s, i, None) == open_mark(s, i + 1, None));
            assert(open_mark(s, i + 1, None) == open_mark(s, i + 2, None));
        }
    }
}

proof fn lemma_closed(s: Seq<char>)
    ensures
        closed(s) == (quotes_after(s, 0, Quote::Bare) == Quote::Bare),
{
    lemma_open_mark(s, 0, Quote::Bare);
}

/// Whether `op` is an operator that, between `a` and `b`, reads as that
/// operator: not run together with a neighbour into another one.
pub open spec fn operator_between(a: Seq<char>, op: Seq<char>, b: Seq<char>) -> bool {
    &&& op == seq![';'] || op == seq!['\n'] || op == seq!['|'] || op == seq!['&'] || op == seq![
        '|',
        '|',
    ] || op == seq!['&', '&']
    &&& (op[0] == '|' || op[0] == '&') && a.len() > 0 ==> a.last() != op[0]
    &&& op == seq!['|'] && b.len() > 0 ==> b[0] != '|'
    &&& op == seq!['&'] && b.len() > 0 ==> b[0] != '&' && b[0] != '>'
    &&& op == seq!['&'] && a.len() > 0 ==> a.last() != '>' && a.last() != '<'
}

/// Whether `b` reads behind `x` as it reads alone: no `&` at its start joins a
/// redirection at the end of `x`.
spec fn follows(x: Seq<char>, b: Seq<char>) -> bool {
    holds(b, 0, '&') ==> !holds(x, x.len() - 1, '>') && !holds(x, x.len() - 1, '<')
}

proof fn lemma_unit_shift(x: Seq<char>, b: Seq<char>, i: int, q: Quote)
    requires
        0 <= i < b.len(),
        x.len() > 0,
        follows(x, b),
    ensures
        unit(x + b, x.len() + i, q) == unit(b, i, q),
{
    let s = x + b;
    assert(s[x.len() + i] == b[i]);
    if i + 1 < b.len() {
        assert(s[x.len() + i + 1] == b[i + 1]);
    }
    if i > 0 {
        assert(s[x.len() + i - 1] == b[i - 1]);
    } else {
        assert(s[x.len() - 1] == x.last());
    }
}

/// Behind a finished operator, text is read as if it stood alone.
proof fn lemma_pieces_shift(x: Seq<char>, b: Seq<char>, i: int, q: Quote, from: int)
    requires
        0 <= from <= i <= b.len(),
        x.len() > 0,
        follows(x, b),
    ensures
        pieces(x + b, x.len() + i, q, x.len() + from) == pieces(b, i, q, from),
    decreases b.len() - i,
{
    let s = x + b;
    if i >= b.len() {
        assert(s.subrange(x.len() + from, s.len() as int) == b.subrange(from, b.len() as int));
    } else {
        lemma_unit_shift(x, b, i, q);
        let u = unit(b, i, q);
        if u.separator {
            lemma_pieces_shift(x, b, i + u.width, u.quote, i + u.width);
            assert(s.subrange(x.len() + from, x.len() + i) == b.subrange(from, i));
        } else {
            lemma_pieces_shift(x, b, i + u.width, u.quote, from);
        }
    }
}

/// Up to an operator, text is read as if it ended there.
proof fn lemma_pieces_prefix(
    a: Seq<char>,
    op: Seq<char>,
    b: Seq<char>,
    i: int,
    q: Quote,
    from: int,
)
    requires
        operator_between(a, op, b),
        0 <= from <= i <= a.len(),
        quotes_after(a, i, q) == Quote::Bare,
    ensures
        pieces(a + op + b, i, q, from) == pieces(a, i, q, from) + pieces(b, 0, Quote::Bare, 0),
    decreases a.len() - i,
{
    let s = a + op + b;
    assert(s.len() == a.len() + op.len() + b.len());
    assert(s[a.len() as int] == op[0]);
    if i >= a.len() {
        if op.len() == 2 {
            assert(s[a.len() as int + 1] == op[1]);
        } else if b.len() > 0 {
            assert(s[a.len() as int + 1] == b[0]);
        }
        if a.len() > 0 {
            assert(s[a.len() - 1] == a.last());
        }
        assert(unit(s, i, q).separator);
        assert(unit(s, i, q).width == op.len());
        assert((a + op).last() == op.last());
        lemma_pieces_shift(a + op, b, 0, Quote::Bare, 0);
        assert(s.subrange(from, i) == a.subrange(from, a.len() as int));
    } else {
        assert(s[i] == a[i]);
        if i + 1 < a.len() {
            assert(s[i + 1] == a[i + 1]);
        }
        if i > 0 {
            assert(s[i - 1] == a[i - 1]);
        }
        let u = unit(a, i, q);
        assert(quotes_after(a, i + u.width, u.quote) == Quote::Bare);
        assert(unit(s, i, q) == u);
        if u.separator {
            lemma_pieces_prefix(a, op, b, i + u.width, u.quote, i + u.width);
            assert(s.subrange(from, i) == a.subrange(from, i));
            assert(seq![a.subrange(from, i)] + (pieces(a, i + u.width, u.quote, i + u.width)
                + pieces(b, 0, Quote::Bare, 0)) == pieces(a, i, q, from) + pieces(
                b,
                0,
                Quote::Bare,
                0,
            ));
        } else {
            lemma_pieces_prefix(a, op, b, i + u.width, u.quote, from);
        }
    }
}

proof fn lemma_commands_add(x: Seq<Seq<char>>, y: Seq<Seq<char>>)
    ensures
        commands(x + y) == commands(x) + commands(y),
{
    let f = |p: Seq<char>| trim(p);
    assert((x + y).map_values(f) == x.map_values(f) + y.map_values(f));
    Seq::filter_distributes_over_add(x.map_values(f), y.map_values(f), |t: Seq<char>| t.len() > 0);
}

/// An operator outside quotes separates: the commands of the line are those
/// of its left side followed by those of its right side, and nothing on
/// either side can hide the other.
pub proof fn law_operator_separates(a: Seq<char>, op: Seq<char>, b: Seq<char>)
    requires
        closed(a),
        operator_between(a, op, b),
    ensures
        segments(a + op + b) == segments(a) + segments(b),
{
    lemma_closed(a);
    lemma_pieces_prefix(a, op, b, 0, Quote::Bare, 0);
    lemma_commands_add(pieces(a, 0, Quote::Bare, 0), pieces(b, 0, Quote::Bare, 0));
}

/// Whether `s`, read from position `i` in the quotes `q`, shows no separator
/// before `end`.
pub open spec fn quiet(s: Seq<char>, i: int, q: Quote, end: int) -> bool
    decreases s.len() - i,
{
    i >= end || (0 <= i < s.len() && !unit(s, i, q).separator && quiet(
        s,
        i + unit(s, i, q).width,
        unit(s, i, q).quote,
        end,
    ))
}

/// Whether `c` can be part of a separator.
pub open spec fn operator_char(c: char) -> bool {
    c == ';' || c == '\n' || c == '|' || c == '&'
}

/// Whether `from..end` is all that stands between two separators.
spec fn stretch(s: Seq<char>, from: int, end: int) -> bool {
    &&& 0 <= from <= end <= s.len()
    &&& from > 0 ==> operator_char(s[from - 1])
    &&& end < s.len() ==> operator_char(s[end])
    &&& quiet(s, from, Quote::Bare, end)
}

proof fn lemma_trim_span(p: Seq<char>) -> (r: (int, int))
    ensures
        0 <= r.0 <= r.1 <= p.len(),
        trim(p) == p.subrange(r.0, r.1),
        forall|i: int| 0 <= i < r.0 ==> is_space(#[trigger] p[i]),
        forall|i: int| r.1 <= i < p.len() ==> is_space(#[trigger] p[i]),
        r.0 < r.1 ==> !is_space(p[r.0]) && !is_space(p[r.1 - 1]),
{
    let f = |c: char| is_space(c);
    let x = lemma_trim_start_span(p);
    let rest = p.subrange(x, p.len() as int);
    let y = lemma_trim_end_span(rest);
    assert(rest.subrange(0, y) == p.subrange(x, x + y));
    assert forall|i: int| x + y <= i < p.len() implies is_space(#[trigger] p[i]) by {
        assert(rest[i - x] == p[i]);
    }
    (x, x + y)
}

proof fn lemma_trim_start_span(p: Seq<char>) -> (x: int)
    ensures
        0 <= x <= p.len(),
        trim_start_by(p, |c: char| is_space(c)) == p.subrange(x, p.len() as int),
        forall|i: int| 0 <= i < x ==> is_space(#[trigger] p[i]),
        x < p.len() ==> !is_space(p[x]),
    decreases p.len(),
{
    if p.len() > 0 && is_space(p.first()) {
        let rest = p.drop_first();
        let y = lemma_trim_start_span(rest);
        assert(rest.subrange(y, rest.len() as int) == p.subrange(y + 1, p.len() as int));
        assert forall|i: int| 0 <= i < y + 1 implies is_space(#[trigger] p[i]) by {
            if i > 0 {
                assert(rest[i - 1] == p[i]);
            }
        }
        y + 1
    } else {
        assert(p.subrange(0, p.len() as int) == p);
        0
    }
}

proof fn lemma_trim_end_span(p: Seq<char>) -> (y: int)
    ensures
        0 <= y <= p.len(),
        trim_end_by(p, |c: char| is_space(c)) == p.subrange(0, y),
        forall|i: int| y <= i < p.len() ==> is_space(#[trigger] p[i]),
        y > 0 ==> !is_space(p[y - 1]),
    decreases p.len(),
{
    if p.len() > 0 && is_space(p.last()) {
        let rest = p.drop_last();
        let y = lemma_trim_end_span(rest);
        assert(rest.subrange(0, y) == p.subrange(0, y));
        assert forall|i: int| y <= i < p.len() implies is_space(#[trigger] p[i]) by {
            if i < p.len() - 1 {
                assert(rest[i] == p[i]);
            }
        }
        y
    } else {
        assert(p.subrange(0, p.len() as int) == p);
        p.len() as int
    }
}

/// Blanks in front of a command change nothing in how it is read.
proof fn lemma_quiet_past_spaces(s: Seq<char>, from: int, x: int, end: int)
    requires
        0 <= from,
        0 <= x,
        from + x <= end <= s.len(),
        quiet(s, from, Quote::Bare, end),
        forall|i: int| from <= i < from + x ==> is_space(#[trigger] s[i]),
    ensures
        quiet(s, from + x, Quote::Bare, end),
    decreases x,
{
    if x > 0 {
        assert(is_space(s[from]));
        assert(unit(s, from, Quote::Bare).width == 1);
        assert(unit(s, from, Quote::Bare).quote == Quote::Bare);
        lemma_quiet_past_spaces(s, from + 1, x - 1, end);
    }
}

/// Cut out of a line between separators and trimmed, a command still shows
/// no separator.
proof fn lemma_cut_is_quiet(s: Seq<char>, base: int, t: Seq<char>, j: int, q: Quote)
    requires
        0 <= base,
        base + t.len() <= s.len(),
        t == s.subrange(base, base + t.len()),
        0 <= j <= t.len(),
        quiet(s, base + j, q, base + t.len()),
        !holds(s, base - 1, '>') && !holds(s, base - 1, '<'),
        !holds(s, base + t.len(), '>'),
    ensures
        pieces(t, j, q, 0) == seq![t],
    decreases t.len() - j,
{
    if j >= t.len() {
        assert(t.subrange(0, t.len() as int) == t);
    } else {
        assert(t[j] == s[base + j]);
        if j + 1 < t.len() {
            assert(t[j + 1] == s[base + j + 1]);
        }
        if j > 0 {
            assert(t[j - 1] == s[base + j - 1]);
        }
        let u = unit(s, base + j, q);
        let v = unit(t, j, q);
        assert(!u.separator);
        assert(!v.separator);
        if j + v.width >= t.len() {
            assert(t.subrange(0, t.len() as int) == t);
            assert(pieces(t, j + v.width, v.quote, 0) == seq![t]);
        } else {
            assert(u == v);
            lemma_cut_is_quiet(s, base, t, j + v.width, v.quote);
        }
    }
}

proof fn lemma_single_command(t: Seq<char>)
    requires
        t.len() > 0,
        !is_space(t[0]),
        !is_space(t.last()),
    ensures
        trim(t) == t,
        commands(seq![t]) == seq![t],
{
    let r = lemma_trim_span(t);
    assert(r.0 == 0 && r.1 == t.len());
    assert(t.subrange(0, t.len() as int) == t);
    lemma_commands_cons(t, Seq::empty());
    assert(seq![t] + Seq::<Seq<char>>::empty() == seq![t]);
    reveal(Seq::filter);
    assert(commands(Seq::empty()) == Seq::<Seq<char>>::empty());
}

/// The one command in a stretch: where it stands, and that it stays whole.
proof fn lemma_stretch_command(s: Seq<char>, from: int, end: int) -> (r: (int, int))
    requires
        stretch(s, from, end),
    ensures
        from <= r.0 <= r.1 <= end,
        trim(s.subrange(from, end)) == s.subrange(r.0, r.1),
        forall|p: int| from <= p < end && !(r.0 <= p < r.1) ==> is_space(#[trigger] s[p]),
        r.0 < r.1 ==> {
            let t = s.subrange(r.0, r.1);
            trim(t) == t && segments(t) == seq![t]
        },
{
    let p = s.subrange(from, end);
    let (x, y) = lemma_trim_span(p);
    let t = s.subrange(from + x, from + y);
    assert(p.subrange(x, y) == t);
    assert forall|i: int| from <= i < end && !(from + x <= i < from + y) implies is_space(
        #[trigger] s[i],
    ) by {
        assert(p[i - from] == s[i]);
    }
    if x < y {
        assert forall|i: int| from <= i < from + x implies is_space(#[trigger] s[i]) by {
            assert(p[i - from] == s[i]);
        }
        lemma_quiet_past_spaces(s, from, x, end);
        lemma_quiet_less(s, from + x, Quote::Bare, end, from + y);
        if x > 0 {
            assert(p[x - 1] == s[from + x - 1]);
        }
        if y < p.len() {
            assert(p[y] == s[from + y]);
        }
        lemma_cut_is_quiet(s, from + x, t, 0, Quote::Bare);
        assert(t[0] == p[x] && t.last() == p[y - 1]);
        lemma_single_command(t);
    }
    (from + x, from + y)
}

proof fn lemma_quiet_less(s: Seq<char>, i: int, q: Quote, end: int, sooner: int)
    requires
        quiet(s, i, q, end),
        sooner <= end,
    ensures
        quiet(s, i, q, sooner),
    decreases s.len() - i,
{
    if i < sooner {
        lemma_quiet_less(s, i + unit(s, i, q).width, unit(s, i, q).quote, end, sooner);
    }
}

/// Whether the commands `c` stand in `s` at the places `r`, in order, none of
/// them before `from`, and each of them whole.
pub open spec fn stand_at(c: Seq<Seq<char>>, s: Seq<char>, from: int, r: Seq<(int, int)>) -> bool {
    &&& r.len() == c.len()
    &&& forall|k: int|
        0 <= k < r.len() ==> from <= (#[trigger] r[k]).0 < r[k].1 <= s.len() && c[k] == s.subrange(
            r[k].0,
            r[k].1,
        ) && trim(c[k]) == c[k] && segments(c[k]) == seq![c[k]]
    &&& forall|k: int, l: int|
        0 <= k < l < r.len() ==> (#[trigger] r[k]).1 <= (#[trigger] r[l]).0
}

/// Whether position `p` lies in one of the places `r`.
pub open spec fn inside(r: Seq<(int, int)>, p: int) -> bool {
    exists|k: int| 0 <= k < r.len() && (#[trigger] r[k]).0 <= p < r[k].1
}

/// Whether all that `s` holds from `from` on outside the places `r` is white
/// space and operators.
pub open spec fn only_gaps_between(s: Seq<char>, from: int, r: Seq<(int, int)>) -> bool {
    forall|p: int|
        from <= p < s.len() && !inside(r, p) ==> is_space(#[trigger] s[p]) || operator_char(s[p])
}

/// Where the commands of a line stand in it, reading on from `i`.
proof fn lemma_spans(s: Seq<char>, i: int, q: Quote, from: int) -> (r: Seq<(int, int)>)
    requires
        0 <= from <= i <= s.len(),
        from > 0 ==> operator_char(s[from - 1]),
        forall|end: int|
            i <= end <= s.len() && quiet(s, i, q, end) ==> #[trigger] quiet(
                s,
                from,
                Quote::Bare,
                end,
            ),
    ensures
        stand_at(commands(pieces(s, i, q, from)), s, from, r),
        only_gaps_between(s, from, r),
    decreases s.len() - i,
{
    let empty = Seq::<Seq<char>>::empty();
    if i >= s.len() {
        assert(quiet(s, i, q, i));
        assert(quiet(s, from, Quote::Bare, i));
        let span = lemma_stretch_command(s, from, i);
        let p = s.subrange(from, i);
        lemma_commands_cons(p, empty);
        assert(seq![p] + empty == seq![p]);
        reveal(Seq::filter);
        assert(commands(empty) == empty);
        if span.0 < span.1 {
            assert(commands(pieces(s, i, q, from)) == seq![trim(p)]);
            let r = seq![span];
            assert(r[0] == span);
            r
        } else {
            Seq::empty()
        }
    } else {
        let u = unit(s, i, q);
        let j = i + u.width;
        if u.separator {
            assert(quiet(s, i, q, i));
            assert(quiet(s, from, Quote::Bare, i));
            let span = lemma_stretch_command(s, from, i);
            let p = s.subrange(from, i);
            let rest = pieces(s, j, u.quote, j);
            assert(operator_char(s[i]) && operator_char(s[j - 1]));
            assert(j <= i + 2);
            let tail = lemma_spans(s, j, u.quote, j);
            lemma_commands_cons(p, rest);
            if span.0 < span.1 {
                let r = seq![span] + tail;
                let all = commands(pieces(s, i, q, from));
                assert(all == seq![trim(p)] + commands(rest));
                assert forall|k: int| 0 < k < r.len() implies #[trigger] r[k] == tail[k - 1]
                    && all[k] == commands(rest)[k - 1] by {}
                assert(stand_at(all, s, from, r));
                assert(r[0] == span);
                assert forall|p: int| from <= p < s.len() && !inside(r, p) implies is_space(
                    #[trigger] s[p],
                ) || operator_char(s[p]) by {
                    if p >= j && inside(tail, p) {
                        let k = choose|k: int|
                            0 <= k < tail.len() && (#[trigger] tail[k]).0 <= p < tail[k].1;
                        assert(r[k + 1] == tail[k]);
                    }
                }
                r
            } else {
                tail
            }
        } else {
            assert forall|end: int| j <= end <= s.len() && quiet(s, j, u.quote, end) implies 
                #[trigger] quiet(s, from, Quote::Bare, end) by {
                assert(quiet(s, i, q, end));
            }
            lemma_spans(s, j, u.quote, from)
        }
    }
}

/// Every command of a line is a stretch of the line itself; the commands
/// stand in it in order and do not overlap. None is blank, and none begins or
/// ends with white space. Nothing is lost: what stands between the commands is
/// white space and operators.
pub proof fn law_segments_are_stretches(s: Seq<char>) -> (r: Seq<(int, int)>)
    ensures
        stand_at(segments(s), s, 0, r),
        only_gaps_between(s, 0, r),
{
    lemma_spans(s, 0, Quote::Bare, 0)
}

/// No operator is left inside a command: split again, it gives itself.
pub proof fn law_segments_are_atomic(s: Seq<char>, k: int)
    requires
        0 <= k < segments(s).len(),
    ensures
        segments(segments(s)[k]) == seq![segments(s)[k]],
{
    let r = lemma_spans(s, 0, Quote::Bare, 0);
    assert(r[k].0 < r[k].1);
}

/// Whether `t` can stand between two quote marks: it does not hold the mark,
/// unless, in double quotes, behind a backslash.
pub open spec fn quotable(mark: char, t: Seq<char>) -> bool
    decreases t.len(),
{
    if t.len() == 0 {
        true
    } else if mark == '"' && t[0] == '\\' {
        t.len() >= 2 && quotable(mark, t.skip(2))
    } else {
        t[0] != mark && quotable(mark, t.skip(1))
    }
}

/// Whether `t` can stand behind a quote mark that is never closed: as `quotable`,
/// but a backslash may end it.
pub open spec fn fits_open_quotes(mark: char, t: Seq<char>) -> bool
    decreases t.len(),
{
    if t.len() == 0 {
        true
    } else if mark == '"' && t[0] == '\\' {
        t.len() < 2 || fits_open_quotes(mark, t.skip(2))
    } else {
        t[0] != mark && fits_open_quotes(mark, t.skip(1))
    }
}

/// `t` in quotes.
pub open spec fn in_quotes(mark: char, t: Seq<char>) -> Seq<char> {
    seq![mark] + t + seq![mark]
}

/// Whatever stands in quotes is read through to their end.
proof fn lemma_pieces_in_quotes(
    x: Seq<char>,
    mark: char,
    t: Seq<char>,
    b: Seq<char>,
    q: Quote,
    from: int,
)
    requires
        mark == '\'' && q == Quote::Single || mark == '"' && q == Quote::Double,
        quotable(mark, t),
    ensures
        pieces(x + t + seq![mark] + b, x.len() as int, q, from) == pieces(
            x + t + seq![mark] + b,
            (x.len() + t.len() + 1) as int,
            Quote::Bare,
            from,
        ),
    decreases t.len(),
{
    let s = x + t + seq![mark] + b;
    let i = x.len() as int;
    if t.len() == 0 {
        assert(s[i] == mark);
    } else if mark == '"' && t[0] == '\\' {
        assert(s[i] == t[0] && s[i + 1] == t[1]);
        let y = x + t.take(2);
        assert(y + t.skip(2) + seq![mark] + b == s);
        lemma_pieces_in_quotes(y, mark, t.skip(2), b, q, from);
    } else {
        assert(s[i] == t[0]);
        let y = x + t.take(1);
        assert(y + t.skip(1) + seq![mark] + b == s);
        lemma_pieces_in_quotes(y, mark, t.skip(1), b, q, from);
    }
}

/// Behind a closing quote mark, text is read as if it stood alone, but for the
/// stretch that is being read.
proof fn lemma_pieces_resume(x: Seq<char>, b: Seq<char>, i: int, q: Quote, from: int)
    requires
        0 <= from <= x.len(),
        0 <= i <= b.len(),
        x.len() > 0,
        follows(x, b),
    ensures
        pieces(b, i, q, 0).len() > 0,
        pieces(x + b, x.len() + i, q, from) == seq![
            x.subrange(from, x.len() as int) + pieces(b, i, q, 0).first(),
        ] + pieces(b, i, q, 0).drop_first(),
    decreases b.len() - i,
{
    let s = x + b;
    let head = x.subrange(from, x.len() as int);
    if i >= b.len() {
        assert(s.subrange(from, s.len() as int) == head + b.subrange(0, b.len() as int));
        assert(pieces(x + b, x.len() + i, q, from) == seq![head + pieces(b, i, q, 0).first()]
            + pieces(b, i, q, 0).drop_first());
    } else {
        lemma_unit_shift(x, b, i, q);
        let u = unit(b, i, q);
        if u.separator {
            let rest = pieces(b, i + u.width, u.quote, i + u.width);
            lemma_pieces_shift(x, b, i + u.width, u.quote, i + u.width);
            assert(s.subrange(from, x.len() + i) == head + b.subrange(0, i));
            assert((seq![b.subrange(0, i)] + rest).drop_first() == rest);
            assert((seq![b.subrange(0, i)] + rest).first() == b.subrange(0, i));
        } else {
            lemma_pieces_resume(x, b, i + u.width, u.quote, from);
        }
    }
}

proof fn lemma_pieces_around_quotes(
    a: Seq<char>,
    mark: char,
    t: Seq<char>,
    b: Seq<char>,
    i: int,
    q: Quote,
    from: int,
)
    requires
        mark == '\'' || mark == '"',
        quotable(mark, t),
        0 <= from <= i <= a.len(),
        quotes_after(a, i, q) == Quote::Bare,
    ensures
        pieces(a, i, q, from).len() > 0,
        pieces(b, 0, Quote::Bare, 0).len() > 0,
        pieces(a + in_quotes(mark, t) + b, i, q, from) == pieces(a, i, q, from).drop_last() + seq![
            pieces(a, i, q, from).last() + in_quotes(mark, t) + pieces(b, 0, Quote::Bare, 0).first(),
        ] + pieces(b, 0, Quote::Bare, 0).drop_first(),
    decreases a.len() - i,
{
    let m = in_quotes(mark, t);
    let s = a + m + b;
    let pb = pieces(b, 0, Quote::Bare, 0);
    let n = a.len() as int;
    assert(s[n] == mark);
    if i >= n {
        let x = a + seq![mark];
        let y = a + m;
        assert(x + t + seq![mark] + b == s);
        assert(y + b == s);
        assert(y.last() == mark);
        assert(unit(s, n, Quote::Bare).quote == turned(mark, Quote::Bare));
        lemma_pieces_in_quotes(x, mark, t, b, turned(mark, Quote::Bare), from);
        lemma_pieces_resume(y, b, 0, Quote::Bare, from);
        let own = a.subrange(from, n);
        assert(y.subrange(from, y.len() as int) == own + m);
        assert(pieces(a, i, q, from) == seq![own]);
        assert(pieces(s, i, q, from) == seq![own].drop_last() + seq![own + m + pb.first()]
            + pb.drop_first());
    } else {
        assert(s[i] == a[i]);
        if i + 1 < n {
            assert(s[i + 1] == a[i + 1]);
        }
        if i > 0 {
            assert(s[i - 1] == a[i - 1]);
        }
        let u = unit(a, i, q);
        assert(quotes_after(a, i + u.width, u.quote) == Quote::Bare);
        assert(unit(s, i, q) == u);
        if u.separator {
            let own = seq![a.subrange(from, i)];
            let rest = pieces(a, i + u.width, u.quote, i + u.width);
            lemma_pieces_around_quotes(a, mark, t, b, i + u.width, u.quote, i + u.width);
            assert(s.subrange(from, i) == a.subrange(from, i));
            assert((own + rest).last() == rest.last());
            assert(own + (rest.drop_last() + seq![rest.last() + m + pb.first()] + pb.drop_first())
                == (own + rest).drop_last() + seq![rest.last() + m + pb.first()]
                + pb.drop_first());
        } else {
            lemma_pieces_around_quotes(a, mark, t, b, i + u.width, u.quote, from);
        }
    }
}

/// Quotes protect what stands in them, and hide nothing else: a quoted text
/// becomes part of the stretch it stands in, whatever it holds, and all other
/// stretches of the line are those of the text before it and after it.
pub proof fn law_quotes_protect(a: Seq<char>, mark: char, t: Seq<char>, b: Seq<char>)
    requires
        closed(a),
        mark == '\'' || mark == '"',
        quotable(mark, t),
    ensures
        stretches(a).len() > 0,
        stretches(b).len() > 0,
        stretches(a + in_quotes(mark, t) + b) == joined(
            stretches(a),
            in_quotes(mark, t),
            stretches(b),
        ),
{
    lemma_closed(a);
    lemma_pieces_around_quotes(a, mark, t, b, 0, Quote::Bare, 0);
}

/// A command with a quoted argument stays one command, whatever operators the
/// argument holds.
pub proof fn law_quoted_argument_stays(a: Seq<char>, mark: char, t: Seq<char>, b: Seq<char>)
    requires
        closed(a),
        pieces(a, 0, Quote::Bare, 0) == seq![a],
        pieces(b, 0, Quote::Bare, 0) == seq![b],
        mark == '\'' || mark == '"',
        quotable(mark, t),
    ensures
        segments(a + in_quotes(mark, t) + b) == seq![trim(a + in_quotes(mark, t) + b)],
{
    let s = a + in_quotes(mark, t) + b;
    let empty = Seq::<Seq<char>>::empty();
    law_quotes_protect(a, mark, t, b);
    assert(seq![a].drop_last() + seq![s] + seq![b].drop_first() == seq![s]);
    lemma_commands_cons(s, empty);
    assert(seq![s] + empty == seq![s]);
    reveal(Seq::filter);
    assert(commands(empty) == empty);
    let r = lemma_trim_span(s);
    if r.0 >= r.1 {
        assert(s[a.len() as int] == mark);
        assert(is_space(s[a.len() as int]));
    }
}

/// The stretches of a line between its separators.
pub open spec fn stretches(s: Seq<char>) -> Seq<Seq<char>> {
    pieces(s, 0, Quote::Bare, 0)
}

/// Two lists of stretches in a row, where the last of the first and the first
/// of the second are one, with `t` between.
pub open spec fn joined(x: Seq<Seq<char>>, t: Seq<char>, y: Seq<Seq<char>>) -> Seq<Seq<char>> {
    x.drop_last() + seq![x.last() + t + y.first()] + y.drop_first()
}

/// Reading `a + t + b` from inside `a`, where what follows `a` changes nothing
/// in how it is read, and `t` is read through.
proof fn lemma_pieces_joined(
    a: Seq<char>,
    t: Seq<char>,
    b: Seq<char>,
    i: int,
    q: Quote,
    from: int,
)
    requires
        0 <= from <= i <= a.len(),
        quotes_after(a, i, q) == Quote::Bare,
        a.len() + t.len() > 0,
        follows(a + t, b),
        a.len() > 0 && (t + b).len() > 0 ==> {
            let (l, f) = (a.last(), (t + b)[0]);
            !(l == '&' && (f == '&' || f == '>')) && !(l == '|' && f == '|')
        },
        forall|f: int|
            0 <= f <= a.len() ==> #[trigger] pieces(
                a + t + b,
                a.len() as int,
                Quote::Bare,
                f,
            ) == pieces(a + t + b, (a.len() + t.len()) as int, Quote::Bare, f),
    ensures
        pieces(a, i, q, from).len() > 0,
        stretches(b).len() > 0,
        pieces(a + t + b, i, q, from) == joined(pieces(a, i, q, from), t, stretches(b)),
    decreases a.len() - i,
{
    let s = a + t + b;
    let pb = stretches(b);
    let n = a.len() as int;
    if i >= n {
        let y = a + t;
        assert(y + b == s);
        lemma_pieces_resume(y, b, 0, Quote::Bare, from);
        let own = a.subrange(from, n);
        assert(y.subrange(from, y.len() as int) == own + t);
        assert(pieces(a, i, q, from) == seq![own]);
        assert(pieces(s, i, q, from) == pieces(s, y.len() as int, Quote::Bare, from));
        assert(pieces(s, i, q, from) == joined(seq![own], t, pb));
    } else {
        assert(s[i] == a[i]);
        if i + 1 < n {
            assert(s[i + 1] == a[i + 1]);
        } else if s.len() > n {
            assert(s[i + 1] == (t + b)[0]);
        }
        if i > 0 {
            assert(s[i - 1] == a[i - 1]);
        }
        let u = unit(a, i, q);
        assert(quotes_after(a, i + u.width, u.quote) == Quote::Bare);
        assert(unit(s, i, q) == u);
        if u.separator {
            let own = seq![a.subrange(from, i)];
            let rest = pieces(a, i + u.width, u.quote, i + u.width);
            lemma_pieces_joined(a, t, b, i + u.width, u.quote, i + u.width);
            assert(s.subrange(from, i) == a.subrange(from, i));
            assert((own + rest).last() == rest.last());
            assert(own + joined(rest, t, pb) == joined(own + rest, t, pb));
        } else {
            lemma_pieces_joined(a, t, b, i + u.width, u.quote, from);
        }
    }
}

/// Text joins: two texts in a row have the stretches of both, the last of the
/// first and the first of the second being one, unless an operator arises or
/// vanishes where they meet.
pub proof fn law_texts_join(a: Seq<char>, b: Seq<char>)
    requires
        closed(a),
        a.len() > 0,
        b.len() > 0,
        !(a.last() == '&' && (b[0] == '&' || b[0] == '>')),
        !(a.last() == '|' && b[0] == '|'),
        !((a.last() == '>' || a.last() == '<') && b[0] == '&'),
    ensures
        stretches(a).len() > 0,
        stretches(b).len() > 0,
        stretches(a + b) == joined(stretches(a), Seq::empty(), stretches(b)),
{
    let e = Seq::<char>::empty();
    lemma_closed(a);
    assert(a + e + b == a + b);
    assert(a + e == a);
    assert(e + b == b);
    lemma_pieces_joined(a, e, b, 0, Quote::Bare, 0);
}

/// The `&` of a redirection never separates: one that is not doubled and stands
/// directly before `>`, or directly behind `>` or `<`, becomes part of the
/// stretch it stands in, whatever stands around it.
pub proof fn law_redirection_ampersand_joins(a: Seq<char>, b: Seq<char>)
    requires
        closed(a),
        a.len() > 0 ==> a.last() != '&',
        b.len() > 0 ==> b[0] != '&',
        (b.len() > 0 && b[0] == '>') || (a.len() > 0 && (a.last() == '>' || a.last() == '<')),
    ensures
        stretches(a).len() > 0,
        stretches(b).len() > 0,
        stretches(a + seq!['&'] + b) == joined(stretches(a), seq!['&'], stretches(b)),
{
    let t = seq!['&'];
    let s = a + t + b;
    let n = a.len() as int;
    lemma_closed(a);
    assert(s[n] == '&');
    if b.len() > 0 {
        assert(s[n + 1] == b[0]);
    }
    if n > 0 {
        assert(s[n - 1] == a.last());
    }
    assert((a + t).last() == '&');
    assert((t + b)[0] == '&');
    assert(!unit(s, n, Quote::Bare).separator);
    lemma_pieces_joined(a, t, b, 0, Quote::Bare, 0);
}

/// Whether `s` holds neither a quote mark nor a character of an operator.
pub open spec fn is_flat(s: Seq<char>) -> bool {
    forall|k: int|
        0 <= k < s.len() ==> #[trigger] s[k] != '\'' && s[k] != '"' && s[k] != ';' && s[k] != '\n'
            && s[k] != '|' && s[k] != '&'
}

proof fn lemma_flat(s: Seq<char>, i: int, from: int)
    requires
        is_flat(s),
        0 <= from <= i <= s.len(),
    ensures
        pieces(s, i, Quote::Bare, from) == seq![s.subrange(from, s.len() as int)],
        quotes_after(s, i, Quote::Bare) == Quote::Bare,
    decreases s.len() - i,
{
    if i < s.len() {
        assert(s[i] != '\'');
        lemma_flat(s, i + 1, from);
    }
}

/// A text without quotes and operators is one stretch.
pub proof fn law_flat_text_is_one_stretch(s: Seq<char>)
    requires
        is_flat(s),
    ensures
        closed(s),
        stretches(s) == seq![s],
{
    lemma_closed(s);
    lemma_flat(s, 0, 0);
    assert(s.subrange(0, s.len() as int) == s);
}

proof fn lemma_open_mark_joins(a: Seq<char>, b: Seq<char>, i: int, open: Option<char>)
    requires
        0 <= i <= a.len(),
        open_mark(a, i, open) is None,
    ensures
        open_mark(a + b, i, open) == open_mark(a + b, a.len() as int, None),
    decreases a.len() - i,
{
    if i < a.len() {
        assert((a + b)[i] == a[i]);
        if open is None {
            lemma_open_mark_joins(
                a,
                b,
                i + 1,
                if a[i] == '\'' || a[i] == '"' {
                    Some(a[i])
                } else {
                    None
                },
            );
        } else if open == Some('"') && a[i] == '\\' && i + 1 < a.len() {
            lemma_open_mark_joins(a, b, i + 2, open);
        } else {
            lemma_open_mark_joins(
                a,
                b,
                i + 1,
                if open == Some(a[i]) {
                    None
                } else {
                    open
                },
            );
        }
    }
}

proof fn lemma_open_mark_shift(x: Seq<char>, b: Seq<char>, i: int, open: Option<char>)
    requires
        0 <= i <= b.len(),
    ensures
        open_mark(x + b, x.len() + i, open) == open_mark(b, i, open),
    decreases b.len() - i,
{
    if i < b.len() {
        assert((x + b)[x.len() + i] == b[i]);
        if open is None {
            lemma_open_mark_shift(
                x,
                b,
                i + 1,
                if b[i] == '\'' || b[i] == '"' {
                    Some(b[i])
                } else {
                    None
                },
            );
        } else if open == Some('"') && b[i] == '\\' && i + 1 < b.len() {
            lemma_open_mark_shift(x, b, i + 2, open);
        } else {
            lemma_open_mark_shift(
                x,
                b,
                i + 1,
                if open == Some(b[i]) {
                    None
                } else {
                    open
                },
            );
        }
    }
}

/// Behind a text with closed quotes, quotes open and close as they do alone.
pub proof fn law_closed_texts_join(a: Seq<char>, b: Seq<char>)
    requires
        closed(a),
    ensures
        closed(a + b) == closed(b),
{
    lemma_open_mark_joins(a, b, 0, None);
    lemma_open_mark_shift(a, b, 0, None);
}

proof fn lemma_open_mark_in_quotes(mark: char, t: Seq<char>, x: Seq<char>)
    requires
        mark == '\'' || mark == '"',
        quotable(mark, t),
    ensures
        open_mark(x + t + seq![mark], x.len() as int, Some(mark)) is None,
    decreases t.len(),
{
    let s = x + t + seq![mark];
    let i = x.len() as int;
    if t.len() == 0 {
        assert(s[i] == mark);
        assert(open_mark(s, i + 1, None) is None);
    } else if mark == '"' && t[0] == '\\' {
        assert(s[i] == t[0]);
        let y = x + t.take(2);
        assert(y + t.skip(2) + seq![mark] == s);
        lemma_open_mark_in_quotes(mark, t.skip(2), y);
    } else {
        assert(s[i] == t[0]);
        let y = x + t.take(1);
        assert(y + t.skip(1) + seq![mark] == s);
        lemma_open_mark_in_quotes(mark, t.skip(1), y);
    }
}

/// A text in quotes closes them.
pub proof fn law_quoted_text_is_closed(mark: char, t: Seq<char>)
    requires
        mark == '\'' || mark == '"',
        quotable(mark, t),
    ensures
        closed(in_quotes(mark, t)),
{
    let s = in_quotes(mark, t);
    assert(s[0] == mark);
    lemma_open_mark_in_quotes(mark, t, seq![mark]);
    assert(open_mark(s, 0, None) == open_mark(s, 1, Some(mark)));
}

/// A line whose only operator characters are the `&` of one redirection is one
/// command.
pub proof fn law_redirection_stays_one_command(a: Seq<char>, b: Seq<char>)
    requires
        is_flat(a),
        is_flat(b),
        (b.len() > 0 && b[0] == '>') || (a.len() > 0 && (a.last() == '>' || a.last() == '<')),
    ensures
        segments(a + seq!['&'] + b) == seq![trim(a + seq!['&'] + b)],
{
    let s = a + seq!['&'] + b;
    law_flat_text_is_one_stretch(a);
    law_flat_text_is_one_stretch(b);
    if a.len() > 0 {
        assert(a[a.len() - 1] != '&');
    }
    law_redirection_ampersand_joins(a, b);
    assert(joined(seq![a], seq!['&'], seq![b]) =~= seq![s]);
    law_one_stretch_is_one_command(s);
    let r = lemma_trim_span(s);
    if r.0 >= r.1 {
        assert(s[a.len() as int] == '&');
        assert(is_space(s[a.len() as int]));
    }
    lemma_commands_cons(s, Seq::empty());
    assert(seq![s] + Seq::<Seq<char>>::empty() == seq![s]);
    reveal(Seq::filter);
    assert(commands(Seq::empty()) == Seq::<Seq<char>>::empty());
}

/// An open quote protects all that follows it.
pub proof fn law_open_quote_protects_the_rest(a: Seq<char>, mark: char, t: Seq<char>)
    requires
        closed(a),
        mark == '\'' || mark == '"',
        fits_open_quotes(mark, t),
    ensures
        stretches(a).len() > 0,
        stretches(a + seq![mark] + t) == joined(stretches(a), seq![mark] + t, seq![Seq::empty()]),
{
    let m = seq![mark] + t;
    let e = Seq::<char>::empty();
    let s = a + m + e;
    let n = a.len() as int;
    lemma_closed(a);
    assert(s == a + seq![mark] + t);
    assert(stretches(e) == seq![e]) by {
        assert(e.subrange(0, 0) == e);
    }
    assert(s[n] == mark);
    assert((m + e)[0] == mark);
    assert forall|f: int| 0 <= f <= n implies #[trigger] pieces(s, n, Quote::Bare, f) == pieces(
        s,
        (n + m.len()) as int,
        Quote::Bare,
        f,
    ) by {
        lemma_pieces_in_open_quote(a + seq![mark], mark, t, turned(mark, Quote::Bare), f);
        assert(a + seq![mark] + t == s);
        assert(pieces(s, n, Quote::Bare, f) == pieces(
            s,
            n + 1,
            turned(mark, Quote::Bare),
            f,
        ));
    }
    lemma_pieces_joined(a, m, e, 0, Quote::Bare, 0);
}

proof fn lemma_pieces_in_open_quote(x: Seq<char>, mark: char, t: Seq<char>, q: Quote, from: int)
    requires
        mark == '\'' && q == Quote::Single || mark == '"' && q == Quote::Double,
        fits_open_quotes(mark, t),
    ensures
        pieces(x + t, x.len() as int, q, from) == seq![
            (x + t).subrange(from, (x + t).len() as int),
        ],
    decreases t.len(),
{
    let s = x + t;
    let i = x.len() as int;
    if t.len() == 0 {
    } else if mark == '"' && t[0] == '\\' && t.len() == 1 {
        assert(s[i] == t[0]);
        assert(pieces(s, i + 1, q, from) == seq![s.subrange(from, s.len() as int)]);
    } else if mark == '"' && t[0] == '\\' {
        assert(s[i] == t[0]);
        let y = x + t.take(2);
        assert(y + t.skip(2) == s);
        lemma_pieces_in_open_quote(y, mark, t.skip(2), q, from);
    } else {
        assert(s[i] == t[0]);
        let y = x + t.take(1);
        assert(y + t.skip(1) == s);
        lemma_pieces_in_open_quote(y, mark, t.skip(1), q, from);
    }
}

/// Each stretch of a line that is not blank gives one command, and the commands
/// come in the order of the stretches.
pub proof fn law_each_stretch_is_a_command(s: Seq<char>, x: Seq<Seq<char>>, y: Seq<Seq<char>>)
    requires
        stretches(s) == x + y,
    ensures
        segments(s) == commands(x) + commands(y),
{
    lemma_commands_add(x, y);
}

/// The command of a stretch is the stretch without the white space around it;
/// a blank stretch has none.
pub proof fn law_one_stretch_is_one_command(p: Seq<char>) -> (r: (int, int))
    ensures
        0 <= r.0 <= r.1 <= p.len(),
        forall|i: int| 0 <= i < r.0 || r.1 <= i < p.len() ==> is_space(#[trigger] p[i]),
        r.0 < r.1 ==> !is_space(p[r.0]) && !is_space(p[r.1 - 1]),
        trim(p) == p.subrange(r.0, r.1),
        commands(seq![p]) == if r.0 < r.1 {
            seq![p.subrange(r.0, r.1)]
        } else {
            Seq::empty()
        },
{
    let r = lemma_trim_span(p);
    lemma_commands_cons(p, Seq::empty());
    assert(seq![p] + Seq::<Seq<char>>::empty() == seq![p]);
    reveal(Seq::filter);
    assert(commands(Seq::empty()) == Seq::<Seq<char>>::empty());
    r
}

/// The files that a command writes over, each with whether it is truncated.
pub open spec fn overwrites(s: Seq<char>) -> Seq<(Seq<char>, bool)> {
    writes_from(s, 0, Quote::Bare)
}

/// Whether `c` is a quote mark.
pub open spec fn is_mark(c: char) -> bool {
    c == '\'' || c == '"'
}

/// Whether `t` begins and ends with something other than a quote mark.
pub open spec fn bare_ends(t: Seq<char>) -> bool {
    t.len() > 0 && !is_mark(t[0]) && !is_mark(t.last())
}

/// Whether `t` names a device that discards what is written to it, in any case
/// of its letters.
pub open spec fn discards(t: Seq<char>) -> bool {
    ||| same_letters(t, "/dev/null"@)
    ||| same_letters(t, "/dev/zero"@)
    ||| same_letters(t, "/dev/stdout"@)
    ||| same_letters(t, "/dev/stderr"@)
    ||| same_letters(t, "/dev/tty"@)
    ||| same_letters(t, "/dev/full"@)
    ||| same_letters(t, "nul"@)
}

proof fn lemma_no_capitals(t: Seq<char>)
    requires
        forall|i: int| 0 <= i < t.len() ==> !(65 <= (#[trigger] t[i]) as int <= 90),
    ensures
        ascii_lowercase(t) == t,
{
    assert forall|i: int| 0 <= i < t.len() implies ascii_lowercase(t)[i] == t[i] by {
        law_lower_case_lowers_capitals(t, i);
    }
    assert(ascii_lowercase(t) =~= t);
}

/// The discard devices are known in any case of their letters, and nothing else
/// is one.
pub proof fn law_discard_devices(t: Seq<char>)
    ensures
        sink(t) == discards(t),
{
    reveal_strlit("/dev/null");
    reveal_strlit("/dev/zero");
    reveal_strlit("/dev/stdout");
    reveal_strlit("/dev/stderr");
    reveal_strlit("/dev/tty");
    reveal_strlit("/dev/full");
    reveal_strlit("nul");
    lemma_no_capitals("/dev/null"@);
    lemma_no_capitals("/dev/zero"@);
    lemma_no_capitals("/dev/stdout"@);
    lemma_no_capitals("/dev/stderr"@);
    lemma_no_capitals("/dev/tty"@);
    lemma_no_capitals("/dev/full"@);
    lemma_no_capitals("nul"@);
    law_lower_case_forgets_case_alone(t, "/dev/null"@);
    law_lower_case_forgets_case_alone(t, "/dev/zero"@);
    law_lower_case_forgets_case_alone(t, "/dev/stdout"@);
    law_lower_case_forgets_case_alone(t, "/dev/stderr"@);
    law_lower_case_forgets_case_alone(t, "/dev/tty"@);
    law_lower_case_forgets_case_alone(t, "/dev/full"@);
    law_lower_case_forgets_case_alone(t, "nul"@);
}

/// The path that a word names is a stretch of the word, character for
/// character: all of it but the quote marks at its ends.
pub proof fn law_path_is_part_of_its_word(w: Seq<char>) -> (r: (int, int))
    ensures
        0 <= r.0 <= r.1 <= w.len(),
        unquoted(w) == w.subrange(r.0, r.1),
        forall|i: int| 0 <= i < r.0 || r.1 <= i < w.len() ==> is_mark(#[trigger] w[i]),
        r.0 < r.1 ==> bare_ends(w.subrange(r.0, r.1)),
{
    law_trimming_takes_the_ends(w, |c: char| c == '\'' || c == '"')
}

/// A word that neither begins nor ends with a quote mark names itself, and in
/// quotes it names the same.
pub proof fn law_quotes_are_not_part_of_the_path(t: Seq<char>, mark: char)
    requires
        bare_ends(t),
        is_mark(mark),
    ensures
        unquoted(t) == t,
        unquoted(in_quotes(mark, t)) == t,
{
    let r = law_path_is_part_of_its_word(t);
    assert(r.0 == 0 && r.1 == t.len()) by {
        if r.0 > 0 {
            assert(is_mark(t[0]));
        } else if r.1 < t.len() {
            assert(is_mark(t[t.len() - 1]));
        }
    }
    assert(t.subrange(0, t.len() as int) =~= t);
    let w = in_quotes(mark, t);
    let q = law_path_is_part_of_its_word(w);
    assert(w[0] == mark && w[w.len() - 1] == mark);
    assert(w[1] == t[0] && w[w.len() - 2] == t.last());
    if q.0 > 1 {
        assert(is_mark(w[1]));
    }
    if q.1 < w.len() - 1 {
        assert(is_mark(w[w.len() - 2]));
    }
    if q.0 < q.1 {
        assert(w.subrange(q.0, q.1)[0] == w[q.0]);
        assert(w.subrange(q.0, q.1).last() == w[q.1 - 1]);
    }
    assert(q.0 == 1 && q.1 == w.len() - 1);
    assert(w.subrange(1, w.len() - 1) =~= t);
}

/// Whether each of the writes `ws` names a file: it has a path, the path is
/// no discard device, and it carries no quote marks at its ends.
pub open spec fn name_files(ws: Seq<(Seq<char>, bool)>) -> bool {
    forall|k: int|
        0 <= k < ws.len() ==> bare_ends((#[trigger] ws[k]).0) && !discards(ws[k].0) && unquoted(
            ws[k].0,
        ) == ws[k].0
}

/// Every write reported names a file.
pub proof fn law_writes_name_files(s: Seq<char>, i: int, q: Quote)
    ensures
        name_files(writes_from(s, i, q)),
    decreases s.len() - i,
{
    if i < 0 || i >= s.len() {
    } else if turns(s[i], q) {
        law_writes_name_files(s, i + 1, turned(s[i], q));
    } else if s[i] == '\\' && q != Quote::Single && i + 1 < s.len() {
        law_writes_name_files(s, i + 2, q);
    } else if s[i] == '>' && q == Quote::Bare {
        lemma_redirect_end(s, i);
        law_writes_name_files(s, redirect_end(s, i), q);
        let k = skip_spaces(s, operator_end(s, i));
        let w = s.subrange(k, word_end(s, k, None));
        let r = law_path_is_part_of_its_word(w);
        law_discard_devices(unquoted(w));
        lemma_unquoted_twice(w);
    } else {
        law_writes_name_files(s, i + 1, q);
    }
}

proof fn lemma_trim_start_ends(p: Seq<char>, f: spec_fn(char) -> bool)
    ensures
        trim_start_by(p, f).len() > 0 ==> !f(trim_start_by(p, f).first()),
    decreases p.len(),
{
    if p.len() > 0 && f(p.first()) {
        lemma_trim_start_ends(p.drop_first(), f);
    }
}

proof fn lemma_trim_end_ends(p: Seq<char>, f: spec_fn(char) -> bool)
    ensures
        trim_end_by(p, f).len() > 0 ==> !f(trim_end_by(p, f).last()) && trim_end_by(p, f).first()
            == p.first(),
    decreases p.len(),
{
    if p.len() > 0 && f(p.last()) {
        lemma_trim_end_ends(p.drop_last(), f);
    }
}

proof fn lemma_unquoted_twice(word: Seq<char>)
    ensures
        unquoted(unquoted(word)) == unquoted(word),
{
    let f = |c: char| c == '\'' || c == '"';
    lemma_trim_start_ends(word, f);
    lemma_trim_end_ends(trim_start_by(word, f), f);
}

proof fn lemma_no_writes_in_quotes(x: Seq<char>, mark: char, t: Seq<char>, b: Seq<char>, q: Quote)
    requires
        mark == '\'' && q == Quote::Single || mark == '"' && q == Quote::Double,
        quotable(mark, t),
    ensures
        writes_from(x + t + seq![mark] + b, x.len() as int, q) == writes_from(
            x + t + seq![mark] + b,
            (x.len() + t.len() + 1) as int,
            Quote::Bare,
        ),
    decreases t.len(),
{
    let s = x + t + seq![mark] + b;
    let i = x.len() as int;
    if t.len() == 0 {
        assert(s[i] == mark);
    } else if mark == '"' && t[0] == '\\' {
        assert(s[i] == t[0] && s[i + 1] == t[1]);
        let y = x + t.take(2);
        assert(y + t.skip(2) + seq![mark] + b == s);
        lemma_no_writes_in_quotes(y, mark, t.skip(2), b, q);
    } else {
        assert(s[i] == t[0]);
        let y = x + t.take(1);
        assert(y + t.skip(1) + seq![mark] + b == s);
        lemma_no_writes_in_quotes(y, mark, t.skip(1), b, q);
    }
}

/// Whether the text `c`, read from position `i` in the quotes `q`, leaves
/// nothing open: its quotes are closed, no backslash waits for what it escapes,
/// and every redirection in it has come to its end.
pub open spec fn settled(c: Seq<char>, i: int, q: Quote) -> bool
    decreases c.len() - i,
{
    if i < 0 || i >= c.len() {
        q == Quote::Bare
    } else if turns(c[i], q) {
        settled(c, i + 1, turned(c[i], q))
    } else if c[i] == '\\' && q != Quote::Single {
        i + 1 < c.len() && settled(c, i + 2, q)
    } else if c[i] == '>' && q == Quote::Bare {
        i < redirect_end(c, i) < c.len() && settled(c, redirect_end(c, i), q)
    } else {
        settled(c, i + 1, q)
    }
}

proof fn lemma_skip_prefix(c: Seq<char>, t: Seq<char>, j: int)
    requires
        0 <= j,
        skip_spaces(c, j) < c.len(),
    ensures
        skip_spaces(c + t, j) == skip_spaces(c, j),
        j <= skip_spaces(c, j),
    decreases c.len() - j,
{
    if j < c.len() {
        assert((c + t)[j] == c[j]);
        if is_space(c[j]) {
            lemma_skip_prefix(c, t, j + 1);
        }
    }
}

proof fn lemma_word_prefix(c: Seq<char>, t: Seq<char>, k: int, open: Option<char>)
    requires
        0 <= k,
        word_end(c, k, open) < c.len(),
    ensures
        word_end(c + t, k, open) == word_end(c, k, open),
        k <= word_end(c, k, open),
    decreases c.len() - k,
{
    if k < c.len() {
        assert((c + t)[k] == c[k]);
        match open {
            Some(q) => lemma_word_prefix(
                c,
                t,
                k + 1,
                if c[k] == q {
                    None
                } else {
                    open
                },
            ),
            None => if c[k] == '\'' || c[k] == '"' {
                lemma_word_prefix(c, t, k + 1, Some(c[k]));
            } else if !is_space(c[k]) {
                lemma_word_prefix(c, t, k + 1, None);
            },
        }
    }
}

/// A redirection that has come to its end is read the same, whatever follows.
proof fn lemma_redirect_prefix(c: Seq<char>, t: Seq<char>, i: int)
    requires
        0 <= i < c.len(),
        redirect_end(c, i) < c.len(),
    ensures
        redirect_end(c + t, i) == redirect_end(c, i),
        redirect_target(c + t, i) == redirect_target(c, i),
{
    let s = c + t;
    let j = operator_end(c, i);
    let k = skip_spaces(c, j);
    lemma_redirect_end(c, i);
    assert(s[i + 1] == c[i + 1]);
    if i > 0 {
        assert(s[i - 1] == c[i - 1]);
    }
    assert(operator_end(s, i) == j);
    if holds(c, j, '&') {
        assert(s[j] == c[j]);
    } else {
        if k >= c.len() {
            assert(word_end(c, k, None) == k);
        }
        lemma_skip_prefix(c, t, j);
        assert(s[j] == c[j]);
        assert(s[k] == c[k]);
        if k + 1 < c.len() {
            assert(s[k + 1] == c[k + 1]);
        } else {
            assert(word_end(c, k + 1, None) == k + 1);
        }
        assert(pipe_at(s, k) == pipe_at(c, k));
        if !pipe_at(c, k) {
            lemma_word_prefix(c, t, k, None);
            let e = word_end(c, k, None);
            assert(s.subrange(k, e) == c.subrange(k, e));
        }
    }
}

proof fn lemma_writes_prefix(c: Seq<char>, t: Seq<char>, i: int, q: Quote)
    requires
        0 <= i <= c.len(),
        settled(c, i, q),
    ensures
        writes_from(c + t, i, q) == writes_from(c, i, q) + writes_from(
            c + t,
            c.len() as int,
            Quote::Bare,
        ),
    decreases c.len() - i,
{
    let s = c + t;
    let rest = writes_from(s, c.len() as int, Quote::Bare);
    if i >= c.len() {
        assert(writes_from(c, i, q) == Seq::<(Seq<char>, bool)>::empty());
        assert(Seq::<(Seq<char>, bool)>::empty() + rest == rest);
    } else {
        assert(s[i] == c[i]);
        if turns(c[i], q) {
            lemma_writes_prefix(c, t, i + 1, turned(c[i], q));
        } else if c[i] == '\\' && q != Quote::Single {
            lemma_writes_prefix(c, t, i + 2, q);
        } else if c[i] == '>' && q == Quote::Bare {
            let e = redirect_end(c, i);
            lemma_redirect_prefix(c, t, i);
            lemma_writes_prefix(c, t, e, q);
            let own = at_most_one(redirect_target(c, i));
            assert(own + (writes_from(c, e, q) + rest) == own + writes_from(c, e, q) + rest);
        } else {
            lemma_writes_prefix(c, t, i + 1, q);
        }
    }
}

/// What a command writes up to a point where nothing is left open does not
/// depend on what follows, and nothing before that point can hide a write
/// behind it.
pub proof fn law_writes_add_up(c: Seq<char>, t: Seq<char>)
    requires
        settled(c, 0, Quote::Bare),
    ensures
        writes_from(c + t, 0, Quote::Bare) == writes_from(c, 0, Quote::Bare) + writes_from(
            c + t,
            c.len() as int,
            Quote::Bare,
        ),
{
    lemma_writes_prefix(c, t, 0, Quote::Bare);
}

/// Whether `t` reads behind `x` as it reads alone: no `&` or `<` at the end of
/// `x` joins a `>` at its start.
pub open spec fn reads_alone(x: Seq<char>, t: Seq<char>) -> bool {
    x.len() > 0 && t.len() > 0 && t[0] == '>' ==> x.last() != '&' && x.last() != '<'
}

proof fn lemma_skip_shift(x: Seq<char>, b: Seq<char>, j: int)
    requires
        0 <= j <= b.len(),
    ensures
        skip_spaces(x + b, x.len() + j) == x.len() + skip_spaces(b, j),
    decreases b.len() - j,
{
    if j < b.len() {
        assert((x + b)[x.len() + j] == b[j]);
        if is_space(b[j]) {
            lemma_skip_shift(x, b, j + 1);
        }
    }
}

proof fn lemma_word_shift(x: Seq<char>, b: Seq<char>, k: int, open: Option<char>)
    requires
        0 <= k <= b.len(),
    ensures
        word_end(x + b, x.len() + k, open) == x.len() + word_end(b, k, open),
    decreases b.len() - k,
{
    if k < b.len() {
        assert((x + b)[x.len() + k] == b[k]);
        match open {
            Some(q) => lemma_word_shift(
                x,
                b,
                k + 1,
                if b[k] == q {
                    None
                } else {
                    open
                },
            ),
            None => if b[k] == '\'' || b[k] == '"' {
                lemma_word_shift(x, b, k + 1, Some(b[k]));
            } else if !is_space(b[k]) {
                lemma_word_shift(x, b, k + 1, None);
            },
        }
    }
}

proof fn lemma_holds_shift(x: Seq<char>, b: Seq<char>, i: int, c: char)
    requires
        0 <= i,
    ensures
        holds(x + b, x.len() + i, c) == holds(b, i, c),
{
    if i < b.len() {
        assert((x + b)[x.len() + i] == b[i]);
    }
}

proof fn lemma_redirect_shift(x: Seq<char>, b: Seq<char>, i: int)
    requires
        0 <= i < b.len(),
        b[i] == '>',
        reads_alone(x, b),
    ensures
        redirect_end(x + b, x.len() + i) == x.len() + redirect_end(b, i),
        redirect_target(x + b, x.len() + i) == redirect_target(b, i),
{
    let s = x + b;
    let n = x.len() as int;
    lemma_holds_shift(x, b, i + 1, '>');
    lemma_holds_shift(x, b, i + 1, '|');
    let j = operator_end(b, i);
    assert(operator_end(s, n + i) == n + j);
    lemma_holds_shift(x, b, j, '&');
    lemma_skip_shift(x, b, j);
    let k = skip_spaces(b, j);
    lemma_gap_moves_on(b, j);
    lemma_gap_stays_inside(b, j);
    lemma_holds_shift(x, b, k, '(');
    lemma_holds_shift(x, b, k, '>');
    lemma_holds_shift(x, b, k + 1, '(');
    lemma_word_shift(x, b, k, None);
    let e = word_end(b, k, None);
    lemma_word_stays_inside(b, k, None);
    assert(s.subrange(n + k, n + e) =~= b.subrange(k, e));
    if i > 0 {
        lemma_holds_shift(x, b, i - 1, '&');
        lemma_holds_shift(x, b, i - 1, '<');
    } else if n > 0 {
        assert(s[n - 1] == x.last());
    }
}

proof fn lemma_gap_stays_inside(s: Seq<char>, j: int)
    requires
        0 <= j <= s.len(),
    ensures
        skip_spaces(s, j) <= s.len(),
        forall|i: int| j <= i < skip_spaces(s, j) ==> is_space(#[trigger] s[i]),
    decreases s.len() - j,
{
    if j < s.len() && is_space(s[j]) {
        lemma_gap_stays_inside(s, j + 1);
    }
}

proof fn lemma_word_stays_inside(s: Seq<char>, k: int, open: Option<char>)
    requires
        0 <= k <= s.len(),
    ensures
        k <= word_end(s, k, open) <= s.len(),
    decreases s.len() - k,
{
    if k < s.len() {
        lemma_word_stays_inside(s, k + 1, None);
        lemma_word_stays_inside(s, k + 1, open);
        lemma_word_stays_inside(s, k + 1, Some(s[k]));
    }
}

proof fn lemma_writes_shift(x: Seq<char>, b: Seq<char>, i: int, q: Quote)
    requires
        0 <= i <= b.len(),
        reads_alone(x, b),
    ensures
        writes_from(x + b, x.len() + i, q) == writes_from(b, i, q),
    decreases b.len() - i,
{
    if i < b.len() {
        assert((x + b)[x.len() + i] == b[i]);
        if turns(b[i], q) {
            lemma_writes_shift(x, b, i + 1, turned(b[i], q));
        } else if b[i] == '\\' && q != Quote::Single && i + 1 < b.len() {
            lemma_writes_shift(x, b, i + 2, q);
        } else if b[i] == '>' && q == Quote::Bare {
            lemma_redirect_end(b, i);
            lemma_redirect_shift(x, b, i);
            lemma_writes_shift(x, b, redirect_end(b, i), q);
        } else {
            lemma_writes_shift(x, b, i + 1, q);
        }
    }
}

/// Writes add up: what two texts in a row write over is what the first does
/// and then what the second does, where the first leaves nothing open and no
/// operator arises where they meet.
pub proof fn law_writes_of_both_parts(c: Seq<char>, t: Seq<char>)
    requires
        settled(c, 0, Quote::Bare),
        reads_alone(c, t),
    ensures
        overwrites(c + t) == overwrites(c) + overwrites(t),
{
    law_writes_add_up(c, t);
    lemma_writes_shift(c, t, 0, Quote::Bare);
}

/// Whether `t` can open nothing: it holds no quote mark, backslash or `>`.
pub open spec fn opens_nothing(t: Seq<char>) -> bool {
    forall|i: int|
        0 <= i < t.len() ==> !is_mark(#[trigger] t[i]) && t[i] != '\\' && t[i] != '>'
}

proof fn lemma_settled_prefix(c: Seq<char>, t: Seq<char>, i: int, q: Quote)
    requires
        0 <= i <= c.len(),
        settled(c, i, q),
    ensures
        settled(c + t, i, q) == settled(c + t, c.len() as int, Quote::Bare),
    decreases c.len() - i,
{
    if i < c.len() {
        assert((c + t)[i] == c[i]);
        if turns(c[i], q) {
            lemma_settled_prefix(c, t, i + 1, turned(c[i], q));
        } else if c[i] == '\\' && q != Quote::Single {
            lemma_settled_prefix(c, t, i + 2, q);
        } else if c[i] == '>' && q == Quote::Bare {
            lemma_redirect_prefix(c, t, i);
            lemma_settled_prefix(c, t, redirect_end(c, i), q);
        } else {
            lemma_settled_prefix(c, t, i + 1, q);
        }
    }
}

proof fn lemma_settled_run(s: Seq<char>, i: int)
    requires
        0 <= i <= s.len(),
        opens_nothing(s.skip(i)),
    ensures
        settled(s, i, Quote::Bare),
    decreases s.len() - i,
{
    if i < s.len() {
        assert(s.skip(i)[0] == s[i]);
        assert forall|k: int| 0 <= k < s.skip(i + 1).len() implies !is_mark(
            #[trigger] s.skip(i + 1)[k],
        ) && s.skip(i + 1)[k] != '\\' && s.skip(i + 1)[k] != '>' by {
            assert(s.skip(i)[k + 1] == s.skip(i + 1)[k]);
        }
        lemma_settled_run(s, i + 1);
    }
}

/// A text that opens nothing leaves nothing open, also behind one that leaves
/// nothing open.
pub proof fn law_plain_text_leaves_nothing_open(c: Seq<char>, t: Seq<char>)
    requires
        settled(c, 0, Quote::Bare),
        opens_nothing(t),
    ensures
        settled(Seq::empty(), 0, Quote::Bare),
        settled(t, 0, Quote::Bare),
        settled(c + t, 0, Quote::Bare),
{
    lemma_settled_prefix(c, t, 0, Quote::Bare);
    assert((c + t).skip(c.len() as int) =~= t);
    lemma_settled_run(c + t, c.len() as int);
    assert(t.skip(0) =~= t);
    lemma_settled_run(t, 0);
}

proof fn lemma_settled_in_quotes(x: Seq<char>, mark: char, t: Seq<char>, q: Quote)
    requires
        mark == '\'' && q == Quote::Single || mark == '"' && q == Quote::Double,
        quotable(mark, t),
    ensures
        settled(x + t + seq![mark], x.len() as int, q),
    decreases t.len(),
{
    let s = x + t + seq![mark];
    let i = x.len() as int;
    if t.len() == 0 {
        assert(s[i] == mark);
        assert(settled(s, i + 1, Quote::Bare));
    } else if mark == '"' && t[0] == '\\' {
        assert(s[i] == t[0] && s[i + 1] == t[1]);
        let y = x + t.take(2);
        assert(y + t.skip(2) + seq![mark] == s);
        lemma_settled_in_quotes(y, mark, t.skip(2), q);
    } else {
        assert(s[i] == t[0]);
        let y = x + t.take(1);
        assert(y + t.skip(1) + seq![mark] == s);
        lemma_settled_in_quotes(y, mark, t.skip(1), q);
    }
}

/// Nor does a quoted text, or one character behind a backslash.
pub proof fn law_quoted_text_leaves_nothing_open(c: Seq<char>, mark: char, t: Seq<char>, d: char)
    requires
        settled(c, 0, Quote::Bare),
        is_mark(mark),
        quotable(mark, t),
    ensures
        settled(c + in_quotes(mark, t), 0, Quote::Bare),
        settled(c + seq!['\\', d], 0, Quote::Bare),
{
    let n = c.len() as int;
    let s = c + in_quotes(mark, t);
    let x = c + seq![mark];
    lemma_settled_prefix(c, in_quotes(mark, t), 0, Quote::Bare);
    assert(s[n] == mark);
    assert(x + t + seq![mark] =~= s);
    lemma_settled_in_quotes(x, mark, t, turned(mark, Quote::Bare));
    let e = c + seq!['\\', d];
    lemma_settled_prefix(c, seq!['\\', d], 0, Quote::Bare);
    assert(e[n] == '\\');
    assert(settled(e, n + 2, Quote::Bare));
}

/// A `>` in quotes is text: what stands in quotes, behind a text that leaves
/// nothing open, writes nothing, whatever it holds.
pub proof fn law_quoted_redirections_are_text(
    a: Seq<char>,
    mark: char,
    t: Seq<char>,
    b: Seq<char>,
)
    requires
        settled(a, 0, Quote::Bare),
        mark == '\'' || mark == '"',
        quotable(mark, t),
    ensures
        overwrites(a + in_quotes(mark, t) + b) == overwrites(a) + overwrites(b),
{
    let s = a + in_quotes(mark, t) + b;
    let x = a + seq![mark];
    assert(x + t + seq![mark] + b == s);
    assert(s[a.len() as int] == mark);
    lemma_no_writes_in_quotes(x, mark, t, b, turned(mark, Quote::Bare));
    assert(a + (in_quotes(mark, t) + b) == s);
    law_writes_add_up(a, in_quotes(mark, t) + b);
    assert((a + in_quotes(mark, t)).last() == mark);
    lemma_writes_shift(a + in_quotes(mark, t), b, 0, Quote::Bare);
}

/// A text without `>` writes nothing.
pub proof fn law_no_operator_no_write(s: Seq<char>, i: int, q: Quote)
    requires
        !s.contains('>'),
    ensures
        writes_from(s, i, q) == Seq::<(Seq<char>, bool)>::empty(),
    decreases s.len() - i,
{
    if i < 0 || i >= s.len() {
    } else if turns(s[i], q) {
        law_no_operator_no_write(s, i + 1, turned(s[i], q));
    } else if s[i] == '\\' && q != Quote::Single && i + 1 < s.len() {
        law_no_operator_no_write(s, i + 2, q);
    } else {
        assert(s[i] != '>');
        law_no_operator_no_write(s, i + 1, q);
    }
}

/// Whether `w`, read from position `k`, is one whole word: it holds no white
/// space but in quotes, and closes them. `open` is the quote mark that it
/// stands in, if any.
pub open spec fn is_whole(w: Seq<char>, k: int, open: Option<char>) -> bool
    decreases w.len() - k,
{
    if k < 0 || k >= w.len() {
        open is None
    } else {
        match open {
            Some(q) => is_whole(
                w,
                k + 1,
                if w[k] == q {
                    None
                } else {
                    open
                },
            ),
            None => if w[k] == '\'' || w[k] == '"' {
                is_whole(w, k + 1, Some(w[k]))
            } else {
                !is_space(w[k]) && is_whole(w, k + 1, None)
            },
        }
    }
}

proof fn lemma_word_runs_to(
    x: Seq<char>,
    w: Seq<char>,
    rest: Seq<char>,
    k: int,
    open: Option<char>,
)
    requires
        0 <= k <= w.len(),
        is_whole(w, k, open),
        rest.len() > 0 ==> is_space(rest[0]),
    ensures
        word_end(x + w + rest, x.len() + k, open) == x.len() + w.len(),
    decreases w.len() - k,
{
    let s = x + w + rest;
    if k < w.len() {
        assert(s[x.len() + k] == w[k]);
        match open {
            Some(q) => lemma_word_runs_to(
                x,
                w,
                rest,
                k + 1,
                if w[k] == q {
                    None
                } else {
                    open
                },
            ),
            None => if w[k] == '\'' || w[k] == '"' {
                lemma_word_runs_to(x, w, rest, k + 1, Some(w[k]));
            } else {
                lemma_word_runs_to(x, w, rest, k + 1, None);
            },
        }
    } else if rest.len() > 0 {
        assert(s[x.len() + k] == rest[0]);
    }
}

proof fn lemma_gap_is_skipped(s: Seq<char>, j: int, k: int)
    requires
        0 <= j <= k < s.len(),
        forall|i: int| j <= i < k ==> is_space(#[trigger] s[i]),
        !is_space(s[k]),
    ensures
        skip_spaces(s, j) == k,
    decreases k - j,
{
    if j < k {
        assert(is_space(s[j]));
        lemma_gap_is_skipped(s, j + 1, k);
    }
}

/// Whether `w`, written behind an operator and a gap, is the word that the
/// operator writes to: it is whole, is no process substitution, and does not
/// read as part of another operator.
pub open spec fn is_word(op: Seq<char>, gap: Seq<char>, w: Seq<char>) -> bool {
    &&& w.len() > 0
    &&& !is_space(w[0])
    &&& is_whole(w, 0, None)
    &&& w[0] != '('
    &&& w[0] == '>' && w.len() > 1 ==> w[1] != '('
    &&& gap.len() == 0 ==> w[0] != '&' && (op.len() == 1 ==> w[0] != '>' && w[0] != '|')
}

/// Whether `op` is an operator that writes to a file.
pub open spec fn writing_operator(op: Seq<char>) -> bool {
    op == seq!['>'] || op == seq!['>', '>'] || op == seq!['>', '|']
}

/// How an operator and the word behind it are read.
proof fn lemma_word_behind_operator(
    c: Seq<char>,
    op: Seq<char>,
    gap: Seq<char>,
    w: Seq<char>,
    rest: Seq<char>,
)
    requires
        writing_operator(op),
        forall|k: int| 0 <= k < gap.len() ==> is_space(#[trigger] gap[k]),
        is_word(op, gap, w),
        rest.len() > 0 ==> is_space(rest[0]),
    ensures
        ({
            let s = c + op + gap + w + rest;
            let i = c.len() as int;
            let j = i + op.len();
            let k = j + gap.len();
            let end = k + w.len();
            &&& s[i] == '>'
            &&& operator_end(s, i) == j
            &&& !holds(s, j, '&')
            &&& skip_spaces(s, j) == k
            &&& !pipe_at(s, k)
            &&& word_end(s, k, None) == end
            &&& s.subrange(k, end) == w
            &&& redirect_end(s, i) == end
            &&& holds(s, i + 1, '>') == (op == seq!['>', '>'])
        }),
{
    let x = c + op + gap;
    let s = x + w + rest;
    let i = c.len() as int;
    let j = i + op.len();
    let k = j + gap.len();
    let end = k + w.len();
    assert(s[i] == '>');
    assert(op.len() == 2 ==> s[i + 1] == op[1]);
    assert(gap.len() > 0 ==> s[j] == gap[0]);
    assert(s[k] == w[0]);
    if w.len() > 1 {
        assert(s[k + 1] == w[1]);
    } else if rest.len() > 0 {
        assert(s[k + 1] == rest[0]);
    }
    assert(op.len() == 1 || op[1] == '|' ==> op != seq!['>', '>']);
    assert(operator_end(s, i) == j);
    assert(!holds(s, j, '&'));
    assert forall|x: int| j <= x < k implies is_space(#[trigger] s[x]) by {
        assert(s[x] == gap[x - j]);
    }
    lemma_gap_is_skipped(s, j, k);
    assert(!pipe_at(s, k));
    lemma_word_runs_to(x, w, rest, 0, None);
    assert(s.subrange(k, end) =~= w);
}

/// A command that writes over a file by a redirection is not invisible: behind
/// any text that leaves nothing open, `> w` and `>| w` report the file that `w`
/// names as truncated and `>> w` reports it as appended to, with or without a
/// gap before `w` and whatever follows it, unless it is a discard device or
/// `w` is nothing but quote marks.
pub proof fn law_redirection_is_reported(
    c: Seq<char>,
    op: Seq<char>,
    gap: Seq<char>,
    w: Seq<char>,
    rest: Seq<char>,
)
    requires
        settled(c, 0, Quote::Bare),
        c.len() > 0 ==> c.last() != '&' && c.last() != '<',
        writing_operator(op),
        forall|k: int| 0 <= k < gap.len() ==> is_space(#[trigger] gap[k]),
        is_word(op, gap, w),
        rest.len() > 0 ==> is_space(rest[0]),
    ensures
        overwrites(c + op + gap + w + rest) == overwrites(c) + (if discards(unquoted(w))
            || unquoted(w).len() == 0 {
            Seq::empty()
        } else {
            seq![(unquoted(w), op != seq!['>', '>'])]
        }) + overwrites(rest),
{
    let x = c + op + gap;
    let s = x + w + rest;
    let i = c.len() as int;
    let end = i + op.len() + gap.len() + w.len();
    lemma_word_behind_operator(c, op, gap, w, rest);
    assert(i > 0 ==> s[i - 1] == c.last());
    lemma_redirect_end(s, i);
    let own = at_most_one(redirect_target(s, i));
    law_discard_devices(unquoted(w));
    assert(own == if discards(unquoted(w)) || unquoted(w).len() == 0 {
        Seq::empty()
    } else {
        seq![(unquoted(w), op != seq!['>', '>'])]
    });
    assert(c + (op + gap + w + rest) == s);
    law_writes_add_up(c, op + gap + w + rest);
    assert(writes_from(s, i, Quote::Bare) == own + writes_from(s, end, Quote::Bare));
    let before = writes_from(c, 0, Quote::Bare);
    let after = writes_from(s, end, Quote::Bare);
    assert(before + (own + after) == before + own + after);
    lemma_writes_shift(x + w, rest, 0, Quote::Bare);
}

/// The path is reported as it is written, character for character: behind a
/// text that leaves nothing open, `> w` reports exactly `w`, and `> "t"` and
/// `> 't'` exactly `t`.
pub proof fn law_path_is_reported_as_written(
    c: Seq<char>,
    op: Seq<char>,
    gap: Seq<char>,
    w: Seq<char>,
    mark: char,
    rest: Seq<char>,
)
    requires
        settled(c, 0, Quote::Bare),
        c.len() > 0 ==> c.last() != '&' && c.last() != '<',
        writing_operator(op),
        forall|k: int| 0 <= k < gap.len() ==> is_space(#[trigger] gap[k]),
        rest.len() > 0 ==> is_space(rest[0]),
        bare_ends(w),
        !discards(w),
        is_mark(mark),
    ensures
        is_word(op, gap, w) ==> overwrites(c + op + gap + w + rest) == overwrites(c) + seq![
            (w, op != seq!['>', '>']),
        ] + overwrites(rest),
        !w.contains(mark) ==> overwrites(c + op + gap + in_quotes(mark, w) + rest) == overwrites(c)
            + seq![(w, op != seq!['>', '>'])] + overwrites(rest),
{
    law_quotes_are_not_part_of_the_path(w, mark);
    if is_word(op, gap, w) {
        law_redirection_is_reported(c, op, gap, w, rest);
    }
    if !w.contains(mark) {
        let q = in_quotes(mark, w);
        assert(q[0] == mark);
        lemma_whole_in_quotes(w, mark, 1);
        law_redirection_is_reported(c, op, gap, q, rest);
    }
}

proof fn lemma_whole_in_quotes(w: Seq<char>, mark: char, k: int)
    requires
        is_mark(mark),
        !w.contains(mark),
        1 <= k <= w.len() + 1,
    ensures
        is_whole(in_quotes(mark, w), k, Some(mark)),
    decreases w.len() + 1 - k,
{
    let q = in_quotes(mark, w);
    if k <= w.len() {
        assert(q[k] == w[k - 1]);
        assert(w.contains(w[k - 1]));
        lemma_whole_in_quotes(w, mark, k + 1);
    } else {
        assert(q[k] == mark);
        assert(is_whole(q, k + 1, None));
    }
}

/// A redirection leaves nothing open once white space follows its word.
pub proof fn law_redirection_comes_to_its_end(
    c: Seq<char>,
    op: Seq<char>,
    gap: Seq<char>,
    w: Seq<char>,
    d: char,
)
    requires
        settled(c, 0, Quote::Bare),
        writing_operator(op),
        forall|k: int| 0 <= k < gap.len() ==> is_space(#[trigger] gap[k]),
        is_word(op, gap, w),
        is_space(d),
    ensures
        settled(c + op + gap + w + seq![d], 0, Quote::Bare),
{
    let rest = seq![d];
    let s = c + op + gap + w + rest;
    let i = c.len() as int;
    let end = i + op.len() + gap.len() + w.len();
    lemma_word_behind_operator(c, op, gap, w, rest);
    assert(redirect_end(s, i) == end);
    assert(c + (op + gap + w + rest) =~= s);
    lemma_settled_prefix(c, op + gap + w + rest, 0, Quote::Bare);
    assert(s[end] == d);
    assert(settled(s, end + 1, Quote::Bare));
    assert(settled(s, end, Quote::Bare));
}

/// Whether `w` is the path that the operator at `i` names in `s`, and how it is
/// written: the path stands at `a..b`, between it and the operator stands
/// nothing but white space and quote marks, and behind it nothing but quote
/// marks up to `e`, where the text ends or white space follows.
pub open spec fn written_at(
    s: Seq<char>,
    w: (Seq<char>, bool),
    i: int,
    a: int,
    b: int,
    e: int,
) -> bool {
    &&& 0 <= i < a < b <= e <= s.len()
    &&& s[i] == '>'
    &&& i > 0 ==> s[i - 1] != '&' && s[i - 1] != '<'
    &&& w.0 == s.subrange(a, b)
    &&& w.1 == (s[i + 1] != '>')
    &&& forall|k: int|
        i + 1 < k < a ==> is_space(#[trigger] s[k]) || is_mark(s[k])
    &&& i + 1 < a ==> s[i + 1] == '>' || s[i + 1] == '|' || is_space(s[i + 1]) || is_mark(s[i + 1])
    &&& forall|k: int| b <= k < e ==> is_mark(#[trigger] s[k])
    &&& e < s.len() ==> is_space(s[e])
}

/// Whether the write `w` stands in `s`.
pub open spec fn is_written(s: Seq<char>, w: (Seq<char>, bool)) -> bool {
    exists|i: int, a: int, b: int, e: int| written_at(s, w, i, a, b, e)
}

/// Whether each of the writes `ws` stands in `s`.
pub open spec fn all_written(s: Seq<char>, ws: Seq<(Seq<char>, bool)>) -> bool {
    forall|k: int| 0 <= k < ws.len() ==> is_written(s, #[trigger] ws[k])
}

proof fn lemma_written_at(s: Seq<char>, i: int)
    requires
        0 <= i < s.len(),
        s[i] == '>',
        redirect_target(s, i) is Some,
    ensures
        is_written(s, redirect_target(s, i)->0),
{
    let j = operator_end(s, i);
    let k = skip_spaces(s, j);
    lemma_redirect_end(s, i);
    lemma_gap_moves_on(s, j);
    lemma_gap_stays_inside(s, j);
    lemma_word_stays_inside(s, k, None);
    let e = word_end(s, k, None);
    if e < s.len() {
        lemma_word_ends_at_space(s, k, None);
    }
    let w = s.subrange(k, e);
    let r = law_path_is_part_of_its_word(w);
    let a = k + r.0;
    let b = k + r.1;
    assert(w.subrange(r.0, r.1) =~= s.subrange(a, b));
    assert forall|x: int| b <= x < e implies is_mark(#[trigger] s[x]) by {
        assert(w[x - k] == s[x]);
    }
    assert forall|x: int| k <= x < a implies is_mark(#[trigger] s[x]) by {
        assert(w[x - k] == s[x]);
    }
    assert(written_at(s, redirect_target(s, i)->0, i, a, b, e));
}

proof fn lemma_all_written(s: Seq<char>, i: int, q: Quote)
    requires
        0 <= i,
    ensures
        all_written(s, writes_from(s, i, q)),
    decreases s.len() - i,
{
    if i >= s.len() {
    } else if turns(s[i], q) {
        lemma_all_written(s, i + 1, turned(s[i], q));
    } else if s[i] == '\\' && q != Quote::Single && i + 1 < s.len() {
        lemma_all_written(s, i + 2, q);
    } else if s[i] == '>' && q == Quote::Bare {
        lemma_redirect_end(s, i);
        let own = at_most_one(redirect_target(s, i));
        let rest = writes_from(s, redirect_end(s, i), q);
        lemma_all_written(s, redirect_end(s, i), q);
        let all = writes_from(s, i, q);
        assert(all == own + rest);
        assert forall|k: int| 0 <= k < all.len() implies is_written(s, #[trigger] all[k]) by {
            if k < own.len() {
                lemma_written_at(s, i);
            } else {
                assert(all[k] == rest[k - own.len()]);
            }
        }
    } else {
        lemma_all_written(s, i + 1, q);
    }
}

/// Every path reported is a stretch of the command itself, behind the `>` that
/// writes to it, and is reported as truncated unless that `>` is doubled.
pub proof fn law_every_write_stands_in_the_command(s: Seq<char>)
    ensures
        all_written(s, overwrites(s)),
{
    lemma_all_written(s, 0, Quote::Bare);
}

/// Whether the `>` at `i` belongs to an operator that writes no file: it
/// points one descriptor at another (`>&`), combines streams (`&>`) or opens
/// for reading and writing (`<>`).
pub open spec fn names_no_file(s: Seq<char>, i: int) -> bool {
    ||| holds(s, i - 1, '&')
    ||| holds(s, i - 1, '<')
    ||| holds(s, i + 1, '&')
    ||| (holds(s, i + 1, '>') || holds(s, i + 1, '|')) && holds(s, i + 2, '&')
}

/// Whether every redirection of `s` belongs to such an operator.
pub open spec fn only_descriptors(s: Seq<char>) -> bool {
    forall|k: int|
        0 <= k < s.len() && #[trigger] s[k] == '>' && !holds(s, k - 1, '>') ==> names_no_file(s, k)
}

/// Whether no `>` of `s` stands behind a backslash.
pub open spec fn escapes_no_operator(s: Seq<char>) -> bool {
    forall|k: int| 0 <= k < s.len() && #[trigger] s[k] == '\\' ==> !holds(s, k + 1, '>')
}

proof fn lemma_word_ends_at_space(s: Seq<char>, k: int, open: Option<char>)
    requires
        0 <= k,
        word_end(s, k, open) < s.len(),
    ensures
        is_space(s[word_end(s, k, open)]),
    decreases s.len() - k,
{
    if k < s.len() {
        match open {
            Some(q) => lemma_word_ends_at_space(
                s,
                k + 1,
                if s[k] == q {
                    None
                } else {
                    open
                },
            ),
            None => if s[k] == '\'' || s[k] == '"' {
                lemma_word_ends_at_space(s, k + 1, Some(s[k]));
            } else if !is_space(s[k]) {
                lemma_word_ends_at_space(s, k + 1, None);
            },
        }
    }
}

proof fn lemma_descriptors(s: Seq<char>, i: int, q: Quote)
    requires
        only_descriptors(s),
        escapes_no_operator(s),
        0 <= i,
        q == Quote::Bare && holds(s, i, '>') ==> !holds(s, i - 1, '>'),
    ensures
        writes_from(s, i, q) == Seq::<(Seq<char>, bool)>::empty(),
    decreases s.len() - i,
{
    if i >= s.len() {
    } else if turns(s[i], q) {
        lemma_descriptors(s, i + 1, turned(s[i], q));
    } else if s[i] == '\\' && q != Quote::Single && i + 1 < s.len() {
        lemma_descriptors(s, i + 2, q);
    } else if s[i] == '>' && q == Quote::Bare {
        lemma_redirect_end(s, i);
        let e = redirect_end(s, i);
        let k = skip_spaces(s, operator_end(s, i));
        assert(names_no_file(s, i));
        if !holds(s, operator_end(s, i), '&') && !pipe_at(s, k) && e < s.len() {
            lemma_gap_moves_on(s, operator_end(s, i));
            lemma_word_ends_at_space(s, k, None);
        }
        if !holds(s, operator_end(s, i), '&') && pipe_at(s, k) && s[k] == '>' {
            let empty = Seq::<(Seq<char>, bool)>::empty();
            lemma_gap_moves_on(s, operator_end(s, i));
            lemma_descriptors(s, k + 1, q);
            assert(skip_spaces(s, k + 1) == k + 1);
            assert(redirect_target(s, k) is None);
            assert(redirect_end(s, k) == k + 1);
            assert(empty + writes_from(s, k + 1, q) == writes_from(s, k + 1, q));
            assert(writes_from(s, e, q) == empty);
            assert(redirect_target(s, i) is None);
            assert(empty + empty == empty);
        } else {
            lemma_descriptors(s, e, q);
        }
    } else {
        lemma_descriptors(s, i + 1, q);
    }
}

proof fn lemma_gap_moves_on(s: Seq<char>, j: int)
    ensures
        skip_spaces(s, j) >= j,
    decreases s.len() - j,
{
    if 0 <= j < s.len() && is_space(s[j]) {
        lemma_gap_moves_on(s, j + 1);
    }
}

/// Descriptor plumbing names no file: a command whose every redirection points
/// one descriptor at another, combines streams or opens for reading and
/// writing writes nothing.
pub proof fn law_descriptors_are_no_files(s: Seq<char>)
    requires
        only_descriptors(s),
        escapes_no_operator(s),
    ensures
        writes_from(s, 0, Quote::Bare) == Seq::<(Seq<char>, bool)>::empty(),
{
    lemma_descriptors(s, 0, Quote::Bare);
}

/// A `>` behind a backslash is text.
pub proof fn law_escaped_operator_is_text(c: Seq<char>, rest: Seq<char>)
    requires
        settled(c, 0, Quote::Bare),
    ensures
        overwrites(c + seq!['\\', '>'] + rest) == overwrites(c) + overwrites(rest),
{
    let s = c + seq!['\\', '>'] + rest;
    assert(c + (seq!['\\', '>'] + rest) == s);
    law_writes_add_up(c, seq!['\\', '>'] + rest);
    assert(s[c.len() as int] == '\\');
    assert((c + seq!['\\', '>']).last() == '>');
    lemma_writes_shift(c + seq!['\\', '>'], rest, 0, Quote::Bare);
}

/// A process substitution is an operator, not a file: `>(` writes nothing
/// itself.
pub proof fn law_process_substitution_is_no_file(c: Seq<char>, rest: Seq<char>)
    requires
        settled(c, 0, Quote::Bare),
    ensures
        overwrites(c + seq!['>', '('] + rest) == overwrites(c) + overwrites(rest),
{
    let s = c + seq!['>', '('] + rest;
    let i = c.len() as int;
    let empty = Seq::<(Seq<char>, bool)>::empty();
    assert(c + (seq!['>', '('] + rest) == s);
    law_writes_add_up(c, seq!['>', '('] + rest);
    assert(s[i] == '>' && s[i + 1] == '(');
    assert(redirect_target(s, i) is None);
    assert(redirect_end(s, i) == i + 1);
    assert(empty + writes_from(s, i + 1, Quote::Bare) == writes_from(s, i + 1, Quote::Bare));
    assert(writes_from(s, i + 1, Quote::Bare) == writes_from(s, i + 2, Quote::Bare));
    assert((c + seq!['>', '(']).last() == '(');
    lemma_writes_shift(c + seq!['>', '('], rest, 0, Quote::Bare);
}

/// Nor is it one where another operator writes to it: `> >(` and `>> >(` write
/// nothing themselves.
pub proof fn law_write_to_process_substitution_is_no_file(
    c: Seq<char>,
    op: Seq<char>,
    gap: Seq<char>,
    rest: Seq<char>,
)
    requires
        settled(c, 0, Quote::Bare),
        writing_operator(op),
        forall|k: int| 0 <= k < gap.len() ==> is_space(#[trigger] gap[k]),
        op.len() == 1 ==> gap.len() > 0,
    ensures
        overwrites(c + op + gap + seq!['>', '('] + rest) == overwrites(c) + overwrites(rest),
{
    let s = c + op + gap + seq!['>', '('] + rest;
    let i = c.len() as int;
    let j = (c.len() + op.len()) as int;
    let k = j + gap.len();
    let empty = Seq::<(Seq<char>, bool)>::empty();
    assert(s[i] == '>');
    assert(op.len() == 2 ==> s[i + 1] == op[1]);
    assert(gap.len() > 0 ==> s[j] == gap[0]);
    assert(s[k] == '>' && s[k + 1] == '(');
    assert(operator_end(s, i) == j);
    assert forall|x: int| j <= x < k implies is_space(#[trigger] s[x]) by {
        assert(s[x] == gap[x - j]);
    }
    lemma_gap_is_skipped(s, j, k);
    assert(redirect_target(s, i) is None);
    assert(redirect_end(s, i) == k);
    assert(skip_spaces(s, k + 1) == k + 1);
    assert(redirect_target(s, k) is None);
    assert(redirect_end(s, k) == k + 1);
    assert(empty + writes_from(s, k + 1, Quote::Bare) == writes_from(s, k + 1, Quote::Bare));
    assert(empty + writes_from(s, k, Quote::Bare) == writes_from(s, k, Quote::Bare));
    assert(c + (op + gap + seq!['>', '('] + rest) == s);
    law_writes_add_up(c, op + gap + seq!['>', '('] + rest);
    assert(writes_from(s, k + 1, Quote::Bare) == writes_from(s, k + 2, Quote::Bare));
    let x = c + op + gap + seq!['>', '('];
    assert(x.last() == '(');
    lemma_writes_shift(x, rest, 0, Quote::Bare);
}

proof fn lemma_no_writes_in_open_quotes(x: Seq<char>, mark: char, t: Seq<char>, q: Quote)
    requires
        mark == '\'' && q == Quote::Single || mark == '"' && q == Quote::Double,
        fits_open_quotes(mark, t),
    ensures
        writes_from(x + t, x.len() as int, q) == Seq::<(Seq<char>, bool)>::empty(),
    decreases t.len(),
{
    let s = x + t;
    let i = x.len() as int;
    if t.len() == 0 {
    } else if mark == '"' && t[0] == '\\' && t.len() == 1 {
        assert(s[i] == t[0]);
        assert(writes_from(s, i + 1, q) == Seq::<(Seq<char>, bool)>::empty());
    } else if mark == '"' && t[0] == '\\' {
        assert(s[i] == t[0]);
        let y = x + t.take(2);
        assert(y + t.skip(2) == s);
        lemma_no_writes_in_open_quotes(y, mark, t.skip(2), q);
    } else {
        assert(s[i] == t[0]);
        let y = x + t.take(1);
        assert(y + t.skip(1) == s);
        lemma_no_writes_in_open_quotes(y, mark, t.skip(1), q);
    }
}

/// Behind an open quote nothing is written, and a backslash at the end writes
/// nothing either.
pub proof fn law_open_quotes_hold_text(a: Seq<char>, mark: char, t: Seq<char>)
    requires
        settled(a, 0, Quote::Bare),
        is_mark(mark),
        fits_open_quotes(mark, t),
    ensures
        overwrites(a + seq![mark] + t) == overwrites(a),
        overwrites(a + seq!['\\']) == overwrites(a),
{
    let s = a + seq![mark] + t;
    let n = a.len() as int;
    assert(s[n] == mark);
    lemma_no_writes_in_open_quotes(a + seq![mark], mark, t, turned(mark, Quote::Bare));
    assert(a + (seq![mark] + t) =~= s);
    law_writes_add_up(a, seq![mark] + t);
    assert(overwrites(s) =~= overwrites(a));
    law_writes_of_both_parts(a, seq!['\\']);
    law_no_operator_no_write(seq!['\\'], 0, Quote::Bare);
    assert(overwrites(a + seq!['\\']) =~= overwrites(a));
}

proof fn lemma_gap_to_the_end(s: Seq<char>, j: int)
    requires
        0 <= j <= s.len(),
        forall|i: int| j <= i < s.len() ==> is_space(#[trigger] s[i]),
    ensures
        skip_spaces(s, j) == s.len(),
    decreases s.len() - j,
{
    if j < s.len() {
        assert(is_space(s[j]));
        lemma_gap_to_the_end(s, j + 1);
    }
}

/// An operator that no word follows writes nothing.
pub proof fn law_operator_without_a_word_writes_nothing(
    c: Seq<char>,
    op: Seq<char>,
    gap: Seq<char>,
)
    requires
        settled(c, 0, Quote::Bare),
        writing_operator(op),
        forall|k: int| 0 <= k < gap.len() ==> is_space(#[trigger] gap[k]),
    ensures
        overwrites(c + op + gap) == overwrites(c),
{
    let s = c + op + gap;
    let i = c.len() as int;
    let j = i + op.len();
    let n = s.len() as int;
    assert(s[i] == '>');
    assert(op.len() == 2 ==> s[i + 1] == op[1]);
    assert(gap.len() > 0 ==> s[j] == gap[0]);
    assert(operator_end(s, i) == j);
    assert forall|x: int| j <= x < n implies is_space(#[trigger] s[x]) by {
        assert(s[x] == gap[x - j]);
    }
    lemma_gap_to_the_end(s, j);
    assert(word_end(s, n, None) == n);
    let w = s.subrange(n, n);
    let r = law_path_is_part_of_its_word(w);
    assert(redirect_target(s, i) is None);
    assert(redirect_end(s, i) == n);
    assert(c + (op + gap) =~= s);
    law_writes_add_up(c, op + gap);
    assert(writes_from(s, n, Quote::Bare) =~= Seq::<(Seq<char>, bool)>::empty());
    assert(overwrites(s) =~= overwrites(c));
}

proof fn lemma_open_word(s: Seq<char>, k: int, mark: char)
    requires
        0 <= k <= s.len(),
        forall|i: int| k <= i < s.len() ==> #[trigger] s[i] != mark,
    ensures
        word_end(s, k, Some(mark)) == s.len(),
    decreases s.len() - k,
{
    if k < s.len() {
        assert(s[k] != mark);
        lemma_open_word(s, k + 1, mark);
    }
}

proof fn lemma_path_behind_open_quote(t: Seq<char>, mark: char)
    requires
        bare_ends(t),
        is_mark(mark),
    ensures
        unquoted(seq![mark] + t) == t,
{
    let w = seq![mark] + t;
    let r = law_path_is_part_of_its_word(w);
    assert(w[0] == mark && w[1] == t[0] && w[w.len() - 1] == t.last());
    if r.0 > 1 {
        assert(is_mark(w[1]));
    }
    if r.1 < w.len() {
        assert(is_mark(w[w.len() - 1]));
    }
    if r.0 < r.1 {
        assert(w.subrange(r.0, r.1)[0] == w[r.0]);
    }
    assert(r.0 == 1 && r.1 == w.len());
    assert(w.subrange(1, w.len() as int) =~= t);
}

/// A path in quotes that are never closed runs to the end of the command.
pub proof fn law_path_in_open_quotes_runs_to_the_end(
    c: Seq<char>,
    op: Seq<char>,
    gap: Seq<char>,
    mark: char,
    t: Seq<char>,
)
    requires
        settled(c, 0, Quote::Bare),
        c.len() > 0 ==> c.last() != '&' && c.last() != '<',
        writing_operator(op),
        forall|k: int| 0 <= k < gap.len() ==> is_space(#[trigger] gap[k]),
        is_mark(mark),
        !t.contains(mark),
        bare_ends(t),
        !discards(t),
    ensures
        overwrites(c + op + gap + (seq![mark] + t)) == overwrites(c) + seq![
            (t, op != seq!['>', '>']),
        ],
{
    let w = seq![mark] + t;
    let s = c + op + gap + w;
    let i = c.len() as int;
    let j = i + op.len();
    let k = j + gap.len();
    let n = s.len() as int;
    assert(s[i] == '>');
    assert(i > 0 ==> s[i - 1] == c.last());
    assert(op.len() == 2 ==> s[i + 1] == op[1]);
    assert(gap.len() > 0 ==> s[j] == gap[0]);
    assert(s[k] == mark);
    assert(operator_end(s, i) == j);
    assert(!holds(s, j, '&'));
    assert forall|x: int| j <= x < k implies is_space(#[trigger] s[x]) by {
        assert(s[x] == gap[x - j]);
    }
    lemma_gap_is_skipped(s, j, k);
    assert(!pipe_at(s, k));
    assert forall|x: int| k + 1 <= x < n implies #[trigger] s[x] != mark by {
        assert(s[x] == t[x - k - 1]);
        assert(t.contains(t[x - k - 1]));
    }
    lemma_open_word(s, k + 1, mark);
    assert(word_end(s, k, None) == n);
    assert(s.subrange(k, n) =~= w);
    lemma_path_behind_open_quote(t, mark);
    law_discard_devices(t);
    assert(op.len() == 1 || op[1] == '|' ==> op != seq!['>', '>']);
    let own = seq![(t, op != seq!['>', '>'])];
    assert(at_most_one(redirect_target(s, i)) =~= own);
    lemma_redirect_end(s, i);
    assert(redirect_end(s, i) == n);
    assert(c + (op + gap + w) =~= s);
    law_writes_add_up(c, op + gap + w);
    let none = writes_from(s, n, Quote::Bare);
    assert(none =~= Seq::<(Seq<char>, bool)>::empty());
    assert(writes_from(s, i, Quote::Bare) == own + none);
    assert(own + none =~= own);
}

/// Pointing one descriptor at another writes nothing: `>&`, behind a text that
/// leaves nothing open, and what follows it is read as it reads alone.
pub proof fn law_descriptor_is_no_file(c: Seq<char>, op: Seq<char>, rest: Seq<char>)
    requires
        settled(c, 0, Quote::Bare),
        writing_operator(op),
        rest.len() > 0 ==> rest[0] != '>',
    ensures
        overwrites(c + op + seq!['&'] + rest) == overwrites(c) + overwrites(rest),
{
    let x = c + op + seq!['&'];
    let s = x + rest;
    let i = c.len() as int;
    let j = i + op.len();
    let empty = Seq::<(Seq<char>, bool)>::empty();
    assert(s[i] == '>');
    assert(op.len() == 2 ==> s[i + 1] == op[1]);
    assert(s[j] == '&');
    assert(operator_end(s, i) == j);
    assert(redirect_target(s, i) is None);
    assert(redirect_end(s, i) == j + 1);
    assert(c + (op + seq!['&'] + rest) =~= s);
    law_writes_add_up(c, op + seq!['&'] + rest);
    assert(empty + writes_from(s, j + 1, Quote::Bare) =~= writes_from(s, j + 1, Quote::Bare));
    lemma_writes_shift(x, rest, 0, Quote::Bare);
}

/// Combining streams (`&>`) and opening for reading and writing (`<>`) write
/// over nothing, whatever word follows.
pub proof fn law_combined_streams_are_no_file(
    c: Seq<char>,
    lead: char,
    op: Seq<char>,
    gap: Seq<char>,
    w: Seq<char>,
    rest: Seq<char>,
)
    requires
        settled(c, 0, Quote::Bare),
        lead == '&' || lead == '<',
        writing_operator(op),
        forall|k: int| 0 <= k < gap.len() ==> is_space(#[trigger] gap[k]),
        is_word(op, gap, w),
        rest.len() > 0 ==> is_space(rest[0]),
    ensures
        overwrites(c + seq![lead] + op + gap + w + rest) == overwrites(c) + overwrites(rest),
{
    let d = c + seq![lead];
    let x = d + op + gap;
    let s = x + w + rest;
    let i = d.len() as int;
    let end = i + op.len() + gap.len() + w.len();
    let empty = Seq::<(Seq<char>, bool)>::empty();
    law_plain_text_leaves_nothing_open(c, seq![lead]);
    law_writes_of_both_parts(c, seq![lead]);
    law_no_operator_no_write(seq![lead], 0, Quote::Bare);
    assert(overwrites(d) =~= overwrites(c));
    assert(s[i - 1] == lead);
    lemma_word_behind_operator(d, op, gap, w, rest);
    assert(redirect_target(s, i) is None);
    assert(redirect_end(s, i) == end);
    assert(d + (op + gap + w + rest) =~= s);
    law_writes_add_up(d, op + gap + w + rest);
    assert(empty + writes_from(s, end, Quote::Bare) =~= writes_from(s, end, Quote::Bare));
    assert(s =~= (x + w) + rest);
    lemma_writes_shift(x + w, rest, 0, Quote::Bare);
}

proof fn lemma_quotes_at_prefix(a: Seq<char>, b: Seq<char>, i: int)
    requires
        0 <= i <= a.len(),
    ensures
        quotes_at(a + b, i) == quotes_at(a, i),
        single_quotes_before(a + b, i) == single_quotes_before(a, i),
    decreases i,
{
    if i > 0 {
        assert((a + b)[i - 1] == a[i - 1]);
        lemma_quotes_at_prefix(a, b, i - 1);
    }
}

/// A substitution that is there stays detected, whatever follows it.
pub proof fn law_substitution_survives(a: Seq<char>, b: Seq<char>, i: int)
    requires
        substitution_at(a, i),
    ensures
        substitution_at(a + b, i),
{
    lemma_quotes_at_prefix(a, b, i);
    assert((a + b)[i] == a[i]);
    if i + 1 < a.len() {
        assert((a + b)[i + 1] == a[i + 1]);
    }
}

/// Whether a backtick or `$(` stands at `i`.
pub open spec fn substitutes(s: Seq<char>, i: int) -> bool {
    0 <= i < s.len() && (s[i] == '`' || (s[i] == '$' && i + 1 < s.len() && s[i + 1] == '('))
}

/// Nothing else is reported: where a substitution is reported, a backtick or
/// `$(` stands. So a command that holds neither has none.
pub proof fn law_only_substitutions_are_reported(s: Seq<char>)
    ensures
        forall|i: int| #[trigger] substitution_at(s, i) ==> substitutes(s, i),
        (forall|i: int| 0 <= i < s.len() ==> #[trigger] s[i] != '`' && s[i] != '$') ==> forall|
            i: int,
        | !#[trigger] substitution_at(s, i),
        (forall|i: int| !#[trigger] substitutes(s, i)) ==> forall|i: int|
            !#[trigger] substitution_at(s, i),
{
    assert forall|i: int| #[trigger] substitution_at(s, i) implies substitutes(s, i) by {}
    if forall|i: int| 0 <= i < s.len() ==> #[trigger] s[i] != '`' && s[i] != '$' {
        assert forall|i: int| !#[trigger] substitution_at(s, i) by {
            if substitution_at(s, i) {
                assert(s[i] != '`' && s[i] != '$');
            }
        }
    }
}

/// How many apostrophes `s` holds.
pub open spec fn apostrophes(s: Seq<char>) -> nat {
    s.filter(|c: char| c == '\'').len()
}

proof fn lemma_apostrophes(s: Seq<char>, i: int)
    requires
        0 <= i <= s.len(),
    ensures
        single_quotes_before(s, i) == apostrophes(s.take(i)),
    decreases i,
{
    reveal(Seq::filter);
    if i > 0 {
        lemma_apostrophes(s, i - 1);
        assert(s.take(i).drop_last() =~= s.take(i - 1));
    }
}

/// A backtick or `$(` behind an even number of apostrophes is reported.
pub proof fn law_paired_apostrophes_hide_nothing(s: Seq<char>, i: int)
    requires
        substitutes(s, i),
        apostrophes(s.take(i)) % 2 == 0,
    ensures
        substitution_at(s, i),
{
    lemma_apostrophes(s, i);
}

proof fn lemma_never_single(s: Seq<char>, i: int)
    requires
        0 <= i <= s.len(),
        forall|k: int| 0 <= k < i ==> #[trigger] s[k] != '\'',
    ensures
        quotes_at(s, i).0 != Quote::Single,
    decreases i,
{
    if i > 0 {
        assert(s[i - 1] != '\'');
        lemma_never_single(s, i - 1);
    }
}

/// A backtick or `$(` that no single quote stands before is reported.
pub proof fn law_substitution_is_reported(s: Seq<char>, i: int)
    requires
        substitutes(s, i),
        forall|k: int| 0 <= k < i ==> #[trigger] s[k] != '\'',
    ensures
        substitution_at(s, i),
{
    lemma_never_single(s, i);
}

/// The quotes that hold inside a quoted text, and behind it.
proof fn lemma_quotes_at_inside(x: Seq<char>, mark: char, t: Seq<char>, b: Seq<char>, q: Quote)
    requires
        mark == '\'' && q == Quote::Single || mark == '"' && q == Quote::Double,
        quotable(mark, t),
        quotes_at(x + t + seq![mark] + b, x.len() as int) == (q, false),
    ensures
        forall|i: int|
            x.len() <= i <= x.len() + t.len() ==> (#[trigger] quotes_at(
                x + t + seq![mark] + b,
                i,
            )).0 == q,
        quotes_at(x + t + seq![mark] + b, (x.len() + t.len() + 1) as int) == (Quote::Bare, false),
    decreases t.len(),
{
    let s = x + t + seq![mark] + b;
    let n = x.len() as int;
    if t.len() == 0 {
        assert(s[n] == mark);
    } else if mark == '"' && t[0] == '\\' {
        assert(s[n] == t[0]);
        let y = x + t.take(2);
        assert(y + t.skip(2) + seq![mark] + b == s);
        assert(quotes_at(s, n + 1) == (q, true));
        lemma_quotes_at_inside(y, mark, t.skip(2), b, q);
    } else {
        assert(s[n] == t[0]);
        let y = x + t.take(1);
        assert(y + t.skip(1) + seq![mark] + b == s);
        lemma_quotes_at_inside(y, mark, t.skip(1), b, q);
    }
}

/// Whether the text `a` ends outside quotes, with no backslash waiting.
pub open spec fn unquoted_end(a: Seq<char>) -> bool {
    quotes_at(a, a.len() as int) == (Quote::Bare, false)
}

/// A text without quote marks and backslashes changes nothing in whether quotes
/// are open.
pub proof fn law_plain_text_opens_no_quotes(a: Seq<char>, t: Seq<char>)
    requires
        unquoted_end(a),
        forall|k: int| 0 <= k < t.len() ==> !is_mark(#[trigger] t[k]) && t[k] != '\\',
    ensures
        unquoted_end(Seq::empty()),
        unquoted_end(a + t),
    decreases t.len(),
{
    if t.len() > 0 {
        let less = t.drop_last();
        assert forall|k: int| 0 <= k < less.len() implies !is_mark(#[trigger] less[k]) && less[k]
            != '\\' by {
            assert(less[k] == t[k]);
        }
        law_plain_text_opens_no_quotes(a, less);
        let x = a + less;
        assert(x + seq![t.last()] =~= a + t);
        lemma_quotes_at_prefix(x, seq![t.last()], x.len() as int);
        assert((a + t)[x.len() as int] == t[t.len() - 1]);
    } else {
        assert(a + t =~= a);
    }
}

/// Quotes that are closed again leave none open, and neither does one character
/// behind a backslash.
pub proof fn law_closed_quotes_leave_none_open(a: Seq<char>, mark: char, t: Seq<char>, d: char)
    requires
        unquoted_end(a),
        is_mark(mark),
        quotable(mark, t),
    ensures
        unquoted_end(a + in_quotes(mark, t)),
        unquoted_end(a + seq!['\\', d]),
{
    let empty = Seq::<char>::empty();
    lemma_quoted_text(a, mark, t, empty);
    assert(a + in_quotes(mark, t) + empty =~= a + in_quotes(mark, t));
    let n = a.len() as int;
    let e = a + seq!['\\', d];
    lemma_quotes_at_prefix(a, seq!['\\', d], n);
    assert(e[n] == '\\' && e[n + 1] == d);
    assert(quotes_at(e, n + 1) == (Quote::Bare, true));
    assert(quotes_at(e, n + 2) == (Quote::Bare, false));
}

proof fn lemma_stays_out_of_single_quotes(a: Seq<char>, t: Seq<char>, b: Seq<char>, k: int)
    requires
        unquoted_end(a),
        forall|i: int| 0 <= i < t.len() ==> #[trigger] t[i] != '\'',
        0 <= k <= t.len(),
    ensures
        quotes_at(a + t + b, a.len() + k).0 != Quote::Single,
    decreases k,
{
    let s = a + t + b;
    if k == 0 {
        assert(a + (t + b) =~= s);
        lemma_quotes_at_prefix(a, t + b, a.len() as int);
    } else {
        lemma_stays_out_of_single_quotes(a, t, b, k - 1);
        assert(s[a.len() + k - 1] == t[k - 1]);
    }
}

/// Behind a text that leaves no quotes open, a backtick or `$(` is reported as
/// long as no apostrophe has followed.
pub proof fn law_substitution_outside_quotes_is_reported(
    a: Seq<char>,
    t: Seq<char>,
    b: Seq<char>,
    i: int,
)
    requires
        unquoted_end(a),
        forall|k: int| 0 <= k < t.len() ==> #[trigger] t[k] != '\'',
        a.len() <= i <= a.len() + t.len(),
        substitutes(a + t + b, i),
    ensures
        substitution_at(a + t + b, i),
{
    lemma_stays_out_of_single_quotes(a, t, b, i - a.len());
}

proof fn lemma_quoted_text(a: Seq<char>, mark: char, t: Seq<char>, b: Seq<char>)
    requires
        unquoted_end(a),
        mark == '\'' || mark == '"',
        quotable(mark, t),
    ensures
        forall|i: int|
            a.len() < i < a.len() + in_quotes(mark, t).len() ==> (#[trigger] quotes_at(
                a + in_quotes(mark, t) + b,
                i,
            )).0 == turned(mark, Quote::Bare),
        quotes_at(
            a + in_quotes(mark, t) + b,
            (a.len() + in_quotes(mark, t).len()) as int,
        ) == (Quote::Bare, false),
{
    let s = a + in_quotes(mark, t) + b;
    let n = a.len() as int;
    let x = a + seq![mark];
    assert(x + t + seq![mark] + b == s);
    assert(a + (in_quotes(mark, t) + b) == s);
    lemma_quotes_at_prefix(a, in_quotes(mark, t) + b, n);
    assert(s[n] == mark);
    assert(quotes_at(s, n + 1) == (turned(mark, Quote::Bare), false));
    lemma_quotes_at_inside(x, mark, t, b, turned(mark, Quote::Bare));
}

/// Double quotes hide no substitution: whatever else they hold, apostrophes
/// too, one that stands in them is reported.
pub proof fn law_double_quotes_hide_no_substitution(
    a: Seq<char>,
    t: Seq<char>,
    b: Seq<char>,
    i: int,
)
    requires
        unquoted_end(a),
        quotable('"', t),
        a.len() < i <= a.len() + t.len(),
        substitutes(a + in_quotes('"', t) + b, i),
    ensures
        substitution_at(a + in_quotes('"', t) + b, i),
{
    lemma_quoted_text(a, '"', t, b);
    assert(quotes_at(a + in_quotes('"', t) + b, i).0 == Quote::Double);
}

/// Whatever a shell would substitute is reported: a backtick or `$(` that it
/// sees outside single quotes.
pub proof fn law_what_a_shell_substitutes_is_reported(s: Seq<char>, i: int)
    requires
        substitutes(s, i),
        quotes_at(s, i).0 != Quote::Single,
    ensures
        substitution_at(s, i),
{
}

/// Single quotes hide what stands in them, and nothing else: behind a text that
/// ends outside quotes and holds its single quotes in pairs, no substitution is
/// reported inside them, and one behind them is reported if it is where the
/// text behind stands alone.
pub proof fn law_single_quotes_hide_substitution(
    a: Seq<char>,
    t: Seq<char>,
    b: Seq<char>,
    i: int,
)
    requires
        unquoted_end(a),
        apostrophes(a) % 2 == 0,
        !t.contains('\''),
    ensures
        a.len() < i <= a.len() + t.len() ==> !substitution_at(a + in_quotes('\'', t) + b, i),
        substitution_at(b, i) ==> substitution_at(
            a + in_quotes('\'', t) + b,
            a.len() + in_quotes('\'', t).len() + i,
        ),
{
    let x = a + in_quotes('\'', t);
    lemma_apostrophes(a, a.len() as int);
    assert(a.take(a.len() as int) =~= a);
    lemma_quotable_single(t);
    lemma_quoted_text(a, '\'', t, b);
    lemma_one_quote_more(a, t, b, t.len() as int);
    if a.len() < i <= a.len() + t.len() {
        assert(quotes_at(x + b, i).0 == Quote::Single);
        lemma_one_quote_more(a, t, b, i - a.len() - 1);
    }
    assert((x + b)[x.len() - 1] == '\'');
    assert(single_quotes_before(x + b, x.len() as int) % 2 == 0);
    if substitution_at(b, i) {
        lemma_quotes_at_shift(x, b, i);
        assert((x + b)[x.len() + i] == b[i]);
        if i + 1 < b.len() {
            assert((x + b)[x.len() + i + 1] == b[i + 1]);
        }
    }
}

proof fn lemma_quotable_single(t: Seq<char>)
    requires
        !t.contains('\''),
    ensures
        quotable('\'', t),
    decreases t.len(),
{
    if t.len() > 0 {
        assert(t.contains(t[0]));
        assert(!t.skip(1).contains('\'')) by {
            if t.skip(1).contains('\'') {
                let k = choose|k: int| 0 <= k < t.skip(1).len() && t.skip(1)[k] == '\'';
                assert(t[k + 1] == '\'');
            }
        }
        lemma_quotable_single(t.skip(1));
    }
}

proof fn lemma_one_quote_more(a: Seq<char>, t: Seq<char>, b: Seq<char>, i: int)
    requires
        !t.contains('\''),
        0 <= i <= t.len(),
    ensures
        single_quotes_before(a + in_quotes('\'', t) + b, a.len() + 1 + i) == single_quotes_before(
            a,
            a.len() as int,
        ) + 1,
    decreases i,
{
    let s = a + in_quotes('\'', t) + b;
    let n = a.len() as int;
    if i > 0 {
        assert(s[n + i] == t[i - 1]);
        assert(t.contains(t[i - 1]));
        lemma_one_quote_more(a, t, b, i - 1);
    } else {
        assert(s[n] == '\'');
        assert(a + (in_quotes('\'', t) + b) == s);
        lemma_quotes_at_prefix(a, in_quotes('\'', t) + b, n);
    }
}

proof fn lemma_quotes_at_shift(x: Seq<char>, b: Seq<char>, i: int)
    requires
        0 <= i <= b.len(),
        quotes_at(x + b, x.len() as int) == (Quote::Bare, false),
    ensures
        quotes_at(x + b, x.len() + i) == quotes_at(b, i),
        single_quotes_before(x + b, x.len() + i) == single_quotes_before(x + b, x.len() as int)
            + single_quotes_before(b, i),
    decreases i,
{
    if i > 0 {
        assert((x + b)[x.len() + i - 1] == b[i - 1]);
        lemma_quotes_at_shift(x, b, i - 1);
    }
}

/// Open quotes hide as closed ones do: behind an apostrophe that is never
/// followed by another no substitution is reported, behind an open double quote
/// every one is.
pub proof fn law_open_quotes_hide_alike(a: Seq<char>, t: Seq<char>, i: int)
    requires
        unquoted_end(a),
        a.len() < i <= a.len() + t.len(),
    ensures
        apostrophes(a) % 2 == 0 && !t.contains('\'') ==> !substitution_at(
            a + seq!['\''] + t,
            i,
        ),
        quotable('"', t) && substitutes(a + seq!['"'] + t, i) ==> substitution_at(
            a + seq!['"'] + t,
            i,
        ),
{
    let e = Seq::<char>::empty();
    if apostrophes(a) % 2 == 0 && !t.contains('\'') {
        let s = a + seq!['\''] + t;
        law_single_quotes_hide_substitution(a, t, e, i);
        assert(s + seq!['\''] =~= a + in_quotes('\'', t) + e);
        if substitution_at(s, i) {
            law_substitution_survives(s, seq!['\''], i);
        }
    }
    if quotable('"', t) && substitutes(a + seq!['"'] + t, i) {
        let s = a + seq!['"'] + t;
        let whole = s + seq!['"'];
        assert(whole =~= a + in_quotes('"', t) + e);
        assert(whole[i] == s[i]);
        if i + 1 < s.len() {
            assert(whole[i + 1] == s[i + 1]);
        }
        lemma_quoted_text(a, '"', t, e);
        assert(quotes_at(whole, i).0 == Quote::Double);
        lemma_quotes_at_prefix(s, seq!['"'], i);
    }
}

/// What `split_segments` returns are the commands, one by one.
pub proof fn law_split_returns_the_commands(s: &str, found: Vec<String>)
    requires
        call_ensures(split_segments, (s,), found),
    ensures
        found@.len() == segments(s@).len(),
        forall|k: int| 0 <= k < found@.len() ==> (#[trigger] found@[k])@ == segments(s@)[k],
{
    assert(texts(found@).len() == found@.len());
    assert forall|k: int| 0 <= k < found@.len() implies (#[trigger] found@[k])@ == segments(
        s@,
    )[k] by {
        assert(texts(found@)[k] == found@[k]@);
    }
}

/// What `redirect_targets` returns are the writes, one by one.
pub proof fn law_redirect_targets_returns_the_writes(segment: &str, out: Vec<Overwrite>)
    requires
        call_ensures(redirect_targets, (segment,), out),
    ensures
        out@.len() == overwrites(segment@).len(),
        forall|k: int|
            0 <= k < out@.len() ==> (#[trigger] out@[k]).target@ == overwrites(segment@)[k].0
                && out@[k].truncates == overwrites(segment@)[k].1,
{
    assert(writes(out@).len() == out@.len());
    assert forall|k: int| 0 <= k < out@.len() implies (#[trigger] out@[k]).target@ == overwrites(
        segment@,
    )[k].0 && out@[k].truncates == overwrites(segment@)[k].1 by {
        assert(writes(out@)[k] == out@[k]@);
    }
}

/// `has_substitution` answers yes only if a backtick or `$(` stands in the
/// command.
pub proof fn law_has_substitution_finds_one(s: &str)
    requires
        call_ensures(has_substitution, (s,), true),
    ensures
        exists|k: int| substitutes(s@, k),
{
    let k = choose|k: int| substitution_at(s@, k);
    assert(substitutes(s@, k));
}

} // verus!
