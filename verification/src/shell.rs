//! Shell-aware command splitting.
//!
//! A wildcard sees one string; a shell sees many commands. A line is split
//! here on the shell's operators, so that every command in it is judged and
//! the most dangerous one governs.
//!
//! `&&`, `||`, `;`, `|`, `&` and newlines separate, outside quotes. An `&`
//! that belongs to a redirection (`2>&1`, `>&2`, `<&-`, `&>log`) does not.
//! What stands inside `$(...)` or backticks cannot be analysed statically:
//! only its presence is reported.

use vstd::prelude::*;
use vstd::string::*;

use crate::text::{
    chars_of, is_space, is_whitespace, slice_text, texts, to_lowercase, trim, trim_by, trim_range,
    ascii_lowercase, same,
};

verus! {

/// Which quotes the scanner stands in.
#[derive(Clone, Copy, PartialEq, Eq, Structural, Debug)]
pub enum Quote {
    Bare,
    Single,
    Double,
}

/// What the scanner finds at one position: how many characters it takes,
/// whether they separate two commands, and the quotes that hold after them.
pub struct Unit {
    pub width: nat,
    pub separator: bool,
    pub quote: Quote,
}

/// Whether position `i` exists and holds `c`.
pub open spec fn holds(s: Seq<char>, i: int, c: char) -> bool {
    0 <= i < s.len() && s[i] == c
}

/// Whether the `&` at `i` belongs to a redirection: `>` or `<` stands before
/// it, or `>` after it.
pub open spec fn amp_redirects(s: Seq<char>, i: int) -> bool {
    holds(s, i - 1, '>') || holds(s, i - 1, '<') || holds(s, i + 1, '>')
}

/// Whether `c`, read in the quotes `q`, opens or closes quotes.
pub open spec fn turns(c: char, q: Quote) -> bool {
    (c == '\'' && q != Quote::Double) || (c == '"' && q != Quote::Single)
}

/// The quotes that hold after such a `c`.
pub open spec fn turned(c: char, q: Quote) -> Quote {
    if q != Quote::Bare {
        Quote::Bare
    } else if c == '\'' {
        Quote::Single
    } else {
        Quote::Double
    }
}

/// The unit at position `i`, read in the quotes `q`.
pub open spec fn unit(s: Seq<char>, i: int, q: Quote) -> Unit {
    let c = s[i];
    if turns(c, q) {
        Unit { width: 1, separator: false, quote: turned(c, q) }
    } else if c == '\\' && q == Quote::Double && i + 1 < s.len() {
        Unit { width: 2, separator: false, quote: q }
    } else if q != Quote::Bare {
        Unit { width: 1, separator: false, quote: q }
    } else if (c == '&' || c == '|') && holds(s, i + 1, c) {
        Unit { width: 2, separator: true, quote: q }
    } else if c == '&' {
        Unit { width: 1, separator: !amp_redirects(s, i), quote: q }
    } else {
        Unit { width: 1, separator: c == '|' || c == ';' || c == '\n', quote: q }
    }
}

/// The stretches of `s` between separators, from position `i` on; the stretch
/// being read began at `from`.
pub open spec fn pieces(s: Seq<char>, i: int, q: Quote, from: int) -> Seq<Seq<char>>
    decreases s.len() - i,
{
    if i >= s.len() {
        seq![s.subrange(from, s.len() as int)]
    } else {
        let u = unit(s, i, q);
        if u.separator {
            seq![s.subrange(from, i)] + pieces(s, i + u.width, u.quote, i + u.width)
        } else {
            pieces(s, i + u.width, u.quote, from)
        }
    }
}

/// The stretches that name a command: trimmed, and not blank.
pub open spec fn commands(stretches: Seq<Seq<char>>) -> Seq<Seq<char>> {
    stretches.map_values(|p: Seq<char>| trim(p)).filter(|t: Seq<char>| t.len() > 0)
}

/// The commands a shell would run for the line `s`, in order.
pub open spec fn segments(s: Seq<char>) -> Seq<Seq<char>> {
    commands(pieces(s, 0, Quote::Bare, 0))
}

/// A stretch contributes itself, trimmed, unless it is blank.
pub proof fn lemma_commands_cons(p: Seq<char>, rest: Seq<Seq<char>>)
    ensures
        commands(seq![p] + rest) == if trim(p).len() > 0 {
            seq![trim(p)] + commands(rest)
        } else {
            commands(rest)
        },
{
    let f = |p: Seq<char>| trim(p);
    let g = |t: Seq<char>| t.len() > 0;
    assert((seq![p] + rest).map_values(f) == seq![trim(p)] + rest.map_values(f));
    Seq::filter_distributes_over_add(seq![trim(p)], rest.map_values(f), g);
    reveal_with_fuel(Seq::filter, 2);
    assert(seq![trim(p)].drop_last() == Seq::<Seq<char>>::empty());
    assert(seq![trim(p)].filter(g) == if trim(p).len() > 0 {
        seq![trim(p)]
    } else {
        Seq::empty()
    });
}

/// The quotes after `c`, where `c` opens or closes some.
fn turn(c: char, q: Quote) -> (r: Option<Quote>)
    ensures
        r == if turns(c, q) {
            Some(turned(c, q))
        } else {
            None
        },
{
    if (c == '\'' && q != Quote::Double) || (c == '"' && q != Quote::Single) {
        if q != Quote::Bare {
            Some(Quote::Bare)
        } else if c == '\'' {
            Some(Quote::Single)
        } else {
            Some(Quote::Double)
        }
    } else {
        None
    }
}

/// Is the `&` at `i` part of a redirection rather than a command separator?
fn is_redirection_amp(chars: &Vec<char>, i: usize) -> (r: bool)
    requires
        i < chars@.len(),
    ensures
        r == amp_redirects(chars@, i as int),
{
    let prev_is_redirect = i > 0 && (chars[i - 1] == '>' || chars[i - 1] == '<');
    let next_is_redirect = i < chars.len() - 1 && chars[i + 1] == '>';
    prev_is_redirect || next_is_redirect
}

/// Adds the stretch `from..to`, trimmed, unless it is blank.
fn flush(found: &mut Vec<String>, chars: &Vec<char>, from: usize, to: usize)
    requires
        from <= to <= chars@.len(),
    ensures
        texts(final(found)@) == texts(old(found)@) + commands(
            seq![chars@.subrange(from as int, to as int)],
        ),
{
    let (a, b) = trim_range(chars, from, to, is_whitespace, Ghost(|c: char| is_space(c)));
    proof {
        let p = chars@.subrange(from as int, to as int);
        lemma_commands_cons(p, Seq::empty());
        assert(seq![p] + Seq::<Seq<char>>::empty() == seq![p]);
        reveal(Seq::filter);
        assert(commands(Seq::empty()) == Seq::<Seq<char>>::empty());
    }
    if a < b {
        found.push(slice_text(chars, a, b));
    }
    assert(a < b ==> texts(found@) == texts(old(found)@).push(
        trim(chars@.subrange(from as int, to as int)),
    ));
}

/// Splits a line into the commands a shell would run for it.
pub fn split_segments(s: &str) -> (found: Vec<String>)
    ensures
        texts(found@) == segments(s@),
{
    let chars = chars_of(s);
    let n: usize = chars.len();
    let mut found: Vec<String> = Vec::new();
    let mut from: usize = 0;
    let mut i: usize = 0;
    let mut quote = Quote::Bare;
    while i < n
        invariant
            chars@ == s@,
            n == chars@.len(),
            from <= i <= n,
            segments(s@) == texts(found@) + commands(pieces(s@, i as int, quote, from as int)),
        decreases n - i,
    {
        let c = chars[i];
        let mut width: usize = 1;
        let mut separator = false;
        let mut next = quote;
        let doubled = i < n - 1 && chars[i + 1] == c;
        if let Some(q) = turn(c, quote) {
            next = q;
        } else if c == '\\' && quote == Quote::Double && i < n - 1 {
            width = 2;
        } else if quote != Quote::Bare {
        } else if (c == '&' || c == '|') && doubled {
            width = 2;
            separator = true;
        } else if c == '&' {
            separator = !is_redirection_amp(&chars, i);
        } else {
            separator = c == '|' || c == ';' || c == '\n';
        }
        assert(unit(s@, i as int, quote) == (Unit { width: width as nat, separator, quote: next }));
        if separator {
            let ghost before = texts(found@);
            flush(&mut found, &chars, from, i);
            proof {
                let p = s@.subrange(from as int, i as int);
                let rest = pieces(s@, i + width, next, i + width);
                lemma_commands_cons(p, rest);
                lemma_commands_cons(p, Seq::empty());
                assert(seq![p] + Seq::<Seq<char>>::empty() == seq![p]);
                reveal(Seq::filter);
                assert(commands(Seq::empty()) == Seq::<Seq<char>>::empty());
                assert(segments(s@) == texts(found@) + commands(rest));
            }
            from = i + width;
        }
        quote = next;
        i = i + width;
    }
    flush(&mut found, &chars, from, n);
    found
}

/// A file that a command will write over, and how.
#[derive(Debug, Clone, PartialEq, Eq)]
pub struct Overwrite {
    /// The path as written, before resolution.
    pub target: String,
    /// True when the write truncates (`>`), false when it appends (`>>`).
    /// Only truncation destroys.
    pub truncates: bool,
}

impl View for Overwrite {
    type V = (Seq<char>, bool);

    open spec fn view(&self) -> (Seq<char>, bool) {
        (self.target@, self.truncates)
    }
}

/// What a list of overwrites holds: each path with whether it is truncated.
pub open spec fn writes(v: Seq<Overwrite>) -> Seq<(Seq<char>, bool)> {
    v.map_values(|o: Overwrite| o@)
}

/// The discard devices, in any ASCII case: writing to one destroys nothing.
pub open spec fn sink(target: Seq<char>) -> bool {
    let t = ascii_lowercase(target);
    ||| t == "/dev/null"@
    ||| t == "/dev/zero"@
    ||| t == "/dev/stdout"@
    ||| t == "/dev/stderr"@
    ||| t == "/dev/tty"@
    ||| t == "/dev/full"@
    ||| t == "nul"@
}

/// The first position at or after `j` that holds no white space.
pub open spec fn skip_spaces(s: Seq<char>, j: int) -> int
    decreases s.len() - j,
{
    if 0 <= j < s.len() && is_space(s[j]) {
        skip_spaces(s, j + 1)
    } else {
        j
    }
}

/// Where the word being read at `k` ends: at the first white space outside
/// quotes. `open` is the quote character the word stands in, if any.
pub open spec fn word_end(s: Seq<char>, k: int, open: Option<char>) -> int
    decreases s.len() - k,
{
    if k < 0 || k >= s.len() {
        k
    } else {
        match open {
            Some(q) => word_end(
                s,
                k + 1,
                if s[k] == q {
                    None
                } else {
                    open
                },
            ),
            None => if s[k] == '\'' || s[k] == '"' {
                word_end(s, k + 1, Some(s[k]))
            } else if is_space(s[k]) {
                k
            } else {
                word_end(s, k + 1, None)
            },
        }
    }
}

/// The path a word names: the word without the quote characters at its ends.
pub open spec fn unquoted(word: Seq<char>) -> Seq<char> {
    trim_by(word, |c: char| c == '\'' || c == '"')
}

/// The position after the operator `>`, `>>` or `>|` that begins at `i`.
pub open spec fn operator_end(s: Seq<char>, i: int) -> int {
    if holds(s, i + 1, '>') || holds(s, i + 1, '|') {
        i + 2
    } else {
        i + 1
    }
}

/// Whether what follows an operator at `k` is a process substitution, which
/// is a pipe and not a path: `>(...)`, be it of this operator or of the next.
pub open spec fn pipe_at(s: Seq<char>, k: int) -> bool {
    holds(s, k, '(') || (holds(s, k, '>') && holds(s, k + 1, '('))
}

/// Where reading goes on after the operator at `i`.
///
/// `>&` points one descriptor at another and `>(...)` is a pipe: neither is
/// followed by a path. Any other operator is followed by the word that ends
/// here.
pub open spec fn redirect_end(s: Seq<char>, i: int) -> int {
    let j = operator_end(s, i);
    let k = skip_spaces(s, j);
    if holds(s, j, '&') {
        j + 1
    } else if pipe_at(s, k) {
        k
    } else {
        word_end(s, k, None)
    }
}

/// The path written by the operator at `i`, if it writes one: not a
/// descriptor (`>&`), a pipe (`>(`, `> >(`), a combination of streams (`&>`), a
/// read-write open (`<>`) or a discard device.
pub open spec fn redirect_target(s: Seq<char>, i: int) -> Option<(Seq<char>, bool)> {
    let j = operator_end(s, i);
    let k = skip_spaces(s, j);
    let target = unquoted(s.subrange(k, word_end(s, k, None)));
    if holds(s, j, '&') || pipe_at(s, k) || holds(s, i - 1, '&') || holds(s, i - 1, '<')
        || target.len() == 0 || sink(target) {
        None
    } else {
        Some((target, !holds(s, i + 1, '>')))
    }
}

/// An option as a list of at most one element.
pub open spec fn at_most_one<T>(o: Option<T>) -> Seq<T> {
    match o {
        Some(x) => seq![x],
        None => Seq::empty(),
    }
}

proof fn lemma_skip_spaces(s: Seq<char>, j: int)
    requires
        0 <= j,
    ensures
        j <= skip_spaces(s, j),
        j <= s.len() ==> skip_spaces(s, j) <= s.len(),
    decreases s.len() - j,
{
    if j < s.len() && is_space(s[j]) {
        lemma_skip_spaces(s, j + 1);
    }
}

proof fn lemma_word_end(s: Seq<char>, k: int, open: Option<char>)
    requires
        0 <= k,
    ensures
        k <= word_end(s, k, open),
        k <= s.len() ==> word_end(s, k, open) <= s.len(),
    decreases s.len() - k,
{
    if k < s.len() {
        lemma_word_end(s, k + 1, None);
        lemma_word_end(s, k + 1, open);
        lemma_word_end(s, k + 1, Some(s[k]));
    }
}

/// Reading always moves forward past a redirection, and stays inside the text.
pub proof fn lemma_redirect_end(s: Seq<char>, i: int)
    requires
        0 <= i < s.len(),
    ensures
        i < redirect_end(s, i) <= s.len(),
{
    let j = operator_end(s, i);
    lemma_skip_spaces(s, j);
    lemma_word_end(s, skip_spaces(s, j), None);
}

/// The writes found from position `i` on, read in the quotes `q`. A `>` in
/// quotes or behind a backslash is text.
pub open spec fn writes_from(s: Seq<char>, i: int, q: Quote) -> Seq<(Seq<char>, bool)>
    decreases s.len() - i,
{
    if i < 0 || i >= s.len() {
        Seq::empty()
    } else if turns(s[i], q) {
        writes_from(s, i + 1, turned(s[i], q))
    } else if s[i] == '\\' && q != Quote::Single && i + 1 < s.len() {
        writes_from(s, i + 2, q)
    } else if s[i] == '>' && q == Quote::Bare {
        proof {
            lemma_redirect_end(s, i);
        }
        at_most_one(redirect_target(s, i)) + writes_from(s, redirect_end(s, i), q)
    } else {
        writes_from(s, i + 1, q)
    }
}

/// A write to one of these destroys nothing: they are discard devices, not
/// files.
fn is_sink(target: &str) -> (r: bool)
    ensures
        r == sink(target@),
{
    let t = to_lowercase(target);
    let t = t.as_str();
    same(t, "/dev/null") || same(t, "/dev/zero") || same(t, "/dev/stdout") || same(t, "/dev/stderr")
        || same(t, "/dev/tty") || same(t, "/dev/full") || same(t, "nul")
}

fn is_quote_mark(c: char) -> (r: bool)
    ensures
        r == (c == '\'' || c == '"'),
{
    c == '\'' || c == '"'
}

/// Whether position `i` exists and holds `c`.
fn at(chars: &Vec<char>, i: usize, c: char) -> (r: bool)
    ensures
        r == holds(chars@, i as int, c),
{
    i < chars.len() && chars[i] == c
}

fn find_word_end(chars: &Vec<char>, start: usize) -> (end: usize)
    requires
        start <= chars@.len(),
    ensures
        start <= end <= chars@.len(),
        end == word_end(chars@, start as int, None),
{
    let mut k: usize = start;
    let mut open: Option<char> = None;
    while k < chars.len()
        invariant
            start <= k <= chars@.len(),
            word_end(chars@, k as int, open) == word_end(chars@, start as int, None),
        decreases chars@.len() - k,
    {
        let d = chars[k];
        match open {
            Some(q) => {
                if d == q {
                    open = None;
                }
            },
            None => {
                if is_quote_mark(d) {
                    open = Some(d);
                } else if is_whitespace(d) {
                    return k;
                }
            },
        }
        k += 1;
    }
    k
}

/// The files that ONE segment writes over, in order.
///
/// Not among them, because nothing is created or truncated: `2>&1`, `>&2`,
/// `<&-` (descriptors), `&>` and `&>>` (streams combined), `<>` (read-write
/// open), `>(...)` (a pipe), `\>` outside quotes, anything in quotes, and the
/// discard devices. `>|` truncates.
pub fn redirect_targets(segment: &str) -> (out: Vec<Overwrite>)
    ensures
        writes(out@) == writes_from(segment@, 0, Quote::Bare),
{
    let chars = chars_of(segment);
    let n: usize = chars.len();
    let mut out: Vec<Overwrite> = Vec::new();
    let mut quote = Quote::Bare;
    let mut i: usize = 0;
    while i < n
        invariant
            chars@ == segment@,
            n == chars@.len(),
            i <= n,
            writes_from(segment@, 0, Quote::Bare) == writes(out@) + writes_from(
                segment@,
                i as int,
                quote,
            ),
        decreases n - i,
    {
        let c = chars[i];
        if let Some(q) = turn(c, quote) {
            quote = q;
            i += 1;
        } else if c == '\\' && quote != Quote::Single && i < n - 1 {
            i += 2;
        } else if c == '>' && quote == Quote::Bare {
            let ghost start = i as int;
            let ghost found = writes(out@);
            let plain = !(i > 0 && (chars[i - 1] == '&' || chars[i - 1] == '<'));
            let mut j: usize = i + 1;
            let truncates = !at(&chars, j, '>');
            if at(&chars, j, '>') || at(&chars, j, '|') {
                j += 1;
            }
            if at(&chars, j, '&') {
                i = j + 1;
            } else {
                let ghost after = j as int;
                while j < n && is_whitespace(chars[j])
                    invariant
                        n == chars@.len(),
                        after <= j <= n,
                        skip_spaces(chars@, j as int) == skip_spaces(chars@, after),
                    decreases n - j,
                {
                    j += 1;
                }
                if at(&chars, j, '(') || (at(&chars, j, '>') && at(&chars, j + 1, '(')) {
                    i = j;
                } else {
                    let end = find_word_end(&chars, j);
                    let (a, b) = trim_range(
                        &chars,
                        j,
                        end,
                        is_quote_mark,
                        Ghost(|c: char| c == '\'' || c == '"'),
                    );
                    let target = slice_text(&chars, a, b);
                    if a < b && plain && !is_sink(target.as_str()) {
                        out.push(Overwrite { target, truncates });
                        assert(writes(out@) == found.push((target@, truncates)));
                    }
                    i = end;
                }
            }
            proof {
                lemma_redirect_end(segment@, start);
                assert(i == redirect_end(segment@, start));
                assert(writes(out@) == found + at_most_one(redirect_target(segment@, start)));
            }
        } else {
            i += 1;
        }
    }
    out
}

/// How many single quotes stand before position `i`.
pub open spec fn single_quotes_before(s: Seq<char>, i: int) -> nat
    decreases i,
{
    if i <= 0 || i > s.len() {
        0
    } else {
        single_quotes_before(s, i - 1) + if s[i - 1] == '\'' {
            1nat
        } else {
            0
        }
    }
}

/// The quotes that a shell sees at position `i`, and whether a backslash
/// escapes what stands there. A backslash is text in single quotes.
pub open spec fn quotes_at(s: Seq<char>, i: int) -> (Quote, bool)
    decreases i,
{
    if i <= 0 || i > s.len() {
        (Quote::Bare, false)
    } else {
        let (q, escaped) = quotes_at(s, i - 1);
        let c = s[i - 1];
        if escaped {
            (q, false)
        } else if c == '\\' && q != Quote::Single {
            (q, true)
        } else if turns(c, q) {
            (turned(c, q), false)
        } else {
            (q, false)
        }
    }
}

/// Whether position `i` stands in single quotes, beyond doubt: an odd number of
/// them stands before it, and a shell sees it in single quotes too.
pub open spec fn single_quoted(s: Seq<char>, i: int) -> bool {
    single_quotes_before(s, i) % 2 == 1 && quotes_at(s, i).0 == Quote::Single
}

/// Whether a command substitution is reported at `i`: a backtick or `$(`, not
/// in single quotes. Where there is doubt it is reported.
pub open spec fn substitution_at(s: Seq<char>, i: int) -> bool {
    &&& 0 <= i < s.len()
    &&& !single_quoted(s, i)
    &&& s[i] == '`' || (s[i] == '$' && holds(s, i + 1, '('))
}

/// Does the command contain a command substitution, which cannot be seen
/// inside?
pub fn has_substitution(s: &str) -> (r: bool)
    ensures
        r == exists|i: int| substitution_at(s@, i),
{
    let chars = chars_of(s);
    let mut odd = false;
    let mut quote = Quote::Bare;
    let mut escaped = false;
    let mut i: usize = 0;
    while i < chars.len()
        invariant
            chars@ == s@,
            i <= chars@.len(),
            odd == (single_quotes_before(s@, i as int) % 2 == 1),
            quotes_at(s@, i as int) == (quote, escaped),
            forall|k: int| 0 <= k < i ==> !substitution_at(s@, k),
        decreases chars@.len() - i,
    {
        let c = chars[i];
        let hidden = odd && quote == Quote::Single;
        if !hidden && (c == '`' || (c == '$' && at(&chars, i + 1, '('))) {
            assert(substitution_at(s@, i as int));
            return true;
        }
        if c == '\'' {
            odd = !odd;
        }
        if escaped {
            escaped = false;
        } else if c == '\\' && quote != Quote::Single {
            escaped = true;
        } else if let Some(q) = turn(c, quote) {
            quote = q;
        }
        i += 1;
    }
    false
}

} // verus!
