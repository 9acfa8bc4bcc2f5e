//! What holds of the vocabulary of texts: white space, trimming, case, numbers
//! and order, said in terms of characters.

use vstd::prelude::*;

use crate::text::{
    ascii_lower, ascii_lowercase, before, blanks, decimal, digit, figure, is_space, join,
    lemma_before_irreflexive, occurs_in, pad, trim_by, trim_end_by, trim_start_by,
};

verus! {

/// Trimming takes away the longest run of characters in `p` at either end, and
/// nothing else: what is left is a stretch of the text whose ends are not in
/// `p`.
pub proof fn law_trimming_takes_the_ends(s: Seq<char>, p: spec_fn(char) -> bool) -> (r: (int, int))
    ensures
        0 <= r.0 <= r.1 <= s.len(),
        trim_by(s, p) == s.subrange(r.0, r.1),
        forall|i: int| 0 <= i < r.0 || r.1 <= i < s.len() ==> p(#[trigger] s[i]),
        r.0 < r.1 ==> !p(s[r.0]) && !p(s[r.1 - 1]),
{
    let x = lemma_trim_start(s, p);
    let rest = s.subrange(x, s.len() as int);
    let y = lemma_trim_end(rest, p);
    assert(rest.subrange(0, y) == s.subrange(x, x + y));
    assert forall|i: int| x + y <= i < s.len() implies p(#[trigger] s[i]) by {
        assert(rest[i - x] == s[i]);
    }
    (x, x + y)
}

proof fn lemma_trim_start(s: Seq<char>, p: spec_fn(char) -> bool) -> (x: int)
    ensures
        0 <= x <= s.len(),
        trim_start_by(s, p) == s.subrange(x, s.len() as int),
        forall|i: int| 0 <= i < x ==> p(#[trigger] s[i]),
        x < s.len() ==> !p(s[x]),
    decreases s.len(),
{
    if s.len() > 0 && p(s.first()) {
        let rest = s.drop_first();
        let y = lemma_trim_start(rest, p);
        assert(rest.subrange(y, rest.len() as int) == s.subrange(y + 1, s.len() as int));
        assert forall|i: int| 0 <= i < y + 1 implies p(#[trigger] s[i]) by {
            if i > 0 {
                assert(rest[i - 1] == s[i]);
            }
        }
        y + 1
    } else {
        assert(s.subrange(0, s.len() as int) == s);
        0
    }
}

proof fn lemma_trim_end(s: Seq<char>, p: spec_fn(char) -> bool) -> (y: int)
    ensures
        0 <= y <= s.len(),
        trim_end_by(s, p) == s.subrange(0, y),
        forall|i: int| y <= i < s.len() ==> p(#[trigger] s[i]),
        y > 0 ==> !p(s[y - 1]),
    decreases s.len(),
{
    if s.len() > 0 && p(s.last()) {
        let rest = s.drop_last();
        let y = lemma_trim_end(rest, p);
        assert(rest.subrange(0, y) == s.subrange(0, y));
        assert forall|i: int| y <= i < s.len() implies p(#[trigger] s[i]) by {
            if i < s.len() - 1 {
                assert(rest[i] == s[i]);
            }
        }
        y
    } else {
        assert(s.subrange(0, s.len() as int) == s);
        s.len() as int
    }
}

/// White space is what Unicode gives that property: the line and column
/// controls, the blank, and the separators that follow.
pub proof fn law_white_space(c: char)
    ensures
        is_space(c) <==> {
            let n = c as int;
            9 <= n <= 13 || n == 32 || n == 133 || n == 160 || n == 5760 || 8192 <= n <= 8202 || n
                == 8232 || n == 8233 || n == 8239 || n == 8287 || n == 12288
        },
{
}

/// Whether two characters are the same, or the two cases of one ASCII letter.
pub open spec fn same_letter(a: char, b: char) -> bool {
    ||| a == b
    ||| 65 <= a as int <= 90 && b as int == a as int + 32
    ||| 65 <= b as int <= 90 && a as int == b as int + 32
}

/// Whether two texts are the same but for the case of their ASCII letters.
pub open spec fn same_letters(a: Seq<char>, b: Seq<char>) -> bool {
    a.len() == b.len() && forall|i: int| 0 <= i < a.len() ==> same_letter(#[trigger] a[i], b[i])
}

/// Two texts have the same lower case exactly if they are the same but for the
/// case of their ASCII letters.
pub proof fn law_lower_case_forgets_case_alone(a: Seq<char>, b: Seq<char>)
    ensures
        ascii_lowercase(a) == ascii_lowercase(b) <==> same_letters(a, b),
{
    let x = ascii_lowercase(a);
    let y = ascii_lowercase(b);
    if x == y {
        assert(x.len() == a.len() && y.len() == b.len());
        assert forall|i: int| 0 <= i < a.len() implies same_letter(#[trigger] a[i], b[i]) by {
            assert(x[i] == ascii_lower(a[i]));
            assert(y[i] == ascii_lower(b[i]));
        }
    }
    if same_letters(a, b) {
        assert forall|i: int| 0 <= i < x.len() implies #[trigger] x[i] == y[i] by {
            assert(same_letter(a[i], b[i]));
        }
        assert(x =~= y);
    }
}

/// Lower case keeps every character but the ASCII capitals, and leaves none of
/// those.
pub proof fn law_lower_case_lowers_capitals(s: Seq<char>, i: int)
    requires
        0 <= i < s.len(),
    ensures
        ascii_lowercase(s).len() == s.len(),
        ascii_lowercase(s)[i] as int == s[i] as int + if 65 <= s[i] as int <= 90 {
            32int
        } else {
            0
        },
{
}

/// The number that a text of decimal digits stands for.
pub open spec fn number(s: Seq<char>) -> int
    decreases s.len(),
{
    if s.len() == 0 {
        0
    } else {
        number(s.drop_last()) * 10 + (s.last() as int - 48)
    }
}

/// A number in decimal reads back as itself. It is made of digits, and begins
/// with a zero only if it is zero.
pub proof fn law_decimal_reads_back(n: nat)
    ensures
        number(decimal(n)) == n,
        decimal(n).len() > 0,
        forall|i: int| 0 <= i < decimal(n).len() ==> 48 <= (#[trigger] decimal(n)[i]) as int <= 57,
        n > 0 ==> decimal(n)[0] != '0',
        n == 0 ==> decimal(n) == seq!['0'],
    decreases n,
{
    let s = decimal(n);
    if n < 10 {
        assert(s == seq![digit(n)]);
        assert(s.drop_last() =~= Seq::<char>::empty());
        assert(number(s.drop_last()) == 0);
        assert(digit(n) as int == 48 + n);
    } else {
        let less = decimal(n / 10);
        law_decimal_reads_back(n / 10);
        assert(s.drop_last() =~= less);
        assert(digit(n % 10) as int == 48 + n % 10);
        assert forall|i: int| 0 <= i < s.len() implies 48 <= (#[trigger] s[i]) as int <= 57 by {
            if i < less.len() {
                assert(s[i] == less[i]);
            }
        }
        assert(s[0] == less[0]);
    }
}

/// A number between two texts stands between them in decimal.
pub proof fn law_figure_shows_its_number(a: Seq<char>, n: nat, b: Seq<char>)
    ensures
        a.is_prefix_of(figure(a, n, b)),
        b.is_suffix_of(figure(a, n, b)),
        number(figure(a, n, b).subrange(a.len() as int, figure(a, n, b).len() - b.len())) == n,
        figure(a, n, b).len() == a.len() + decimal(n).len() + b.len(),
{
    law_decimal_reads_back(n);
    let f = figure(a, n, b);
    assert(f.subrange(a.len() as int, f.len() - b.len()) =~= decimal(n));
    assert(f.subrange(0, a.len() as int) =~= a);
    assert(f.subrange(f.len() - b.len(), f.len() as int) =~= b);
}

/// Padding adds blanks behind a text until it has the width, and nothing to a
/// text that has it.
pub proof fn law_padding_adds_blanks(s: Seq<char>, width: nat)
    ensures
        pad(s, width).len() == if s.len() < width {
            width
        } else {
            s.len()
        },
        pad(s, width).take(s.len() as int) == s,
        forall|i: int| s.len() <= i < pad(s, width).len() ==> #[trigger] pad(s, width)[i] == ' ',
        blanks(0).len() == 0,
{
}

/// Joined texts stand in order, with the separator between neighbours and
/// nowhere else.
pub proof fn law_join_puts_separators_between(
    list: Seq<Seq<char>>,
    next: Seq<char>,
    sep: Seq<char>,
)
    ensures
        join(Seq::empty(), sep) == Seq::<char>::empty(),
        join(seq![next], sep) == next,
        list.len() > 0 ==> join(list.push(next), sep) == join(list, sep) + sep + next,
{
    assert(list.push(next).drop_last() =~= list);
}

/// One text comes before another where they first differ, if its character
/// there is the smaller one.
pub proof fn law_order_is_decided_at_the_first_difference(
    common: Seq<char>,
    x: char,
    y: char,
    a: Seq<char>,
    b: Seq<char>,
)
    requires
        x != y,
    ensures
        before(common + seq![x] + a, common + seq![y] + b) == ((x as int) < y as int),
    decreases common.len(),
{
    let s = common + seq![x] + a;
    let t = common + seq![y] + b;
    if common.len() > 0 {
        let rest = common.drop_first();
        assert(s.drop_first() =~= rest + seq![x] + a);
        assert(t.drop_first() =~= rest + seq![y] + b);
        assert(s[0] == common[0] && t[0] == common[0]);
        law_order_is_decided_at_the_first_difference(rest, x, y, a, b);
    } else {
        assert(s[0] == x && t[0] == y);
    }
}

/// A text comes before every longer text that begins with it, and none comes
/// before its own beginning.
pub proof fn law_beginning_comes_first(a: Seq<char>, more: Seq<char>)
    ensures
        before(a, a + more) == (more.len() > 0),
        !before(a + more, a),
    decreases a.len(),
{
    if more.len() == 0 {
        assert(a + more =~= a);
        lemma_before_irreflexive(a);
    } else if a.len() > 0 {
        assert((a + more).drop_first() =~= a.drop_first() + more);
        assert((a + more)[0] == a[0]);
        law_beginning_comes_first(a.drop_first(), more);
    }
}

/// A text occurs in whatever it stands in, and only there.
pub proof fn law_occurrence_is_a_stretch(needle: Seq<char>, hay: Seq<char>)
    ensures
        occurs_in(needle, hay) <==> exists|a: Seq<char>, b: Seq<char>|
            hay == #[trigger] (a + needle + b),
{
    if occurs_in(needle, hay) {
        let i = choose|i: int|
            0 <= i <= hay.len() - needle.len() && #[trigger] hay.subrange(i, i + needle.len())
                == needle;
        let a = hay.take(i);
        let b = hay.skip(i + needle.len());
        assert(a + hay.subrange(i, i + needle.len()) + b =~= hay);
        assert(hay == a + needle + b);
    }
    if exists|a: Seq<char>, b: Seq<char>| hay == #[trigger] (a + needle + b) {
        let (a, b) = choose|a: Seq<char>, b: Seq<char>| hay == #[trigger] (a + needle + b);
        let i = a.len() as int;
        assert(hay.subrange(i, i + needle.len()) =~= needle);
    }
}

} // verus!
