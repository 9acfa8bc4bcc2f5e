//! What holds of every notification.

use vstd::prelude::*;

use crate::audit::lines;
use crate::audit_laws::{law_lines_of_both_parts, law_one_line_is_its_text};
use crate::notify::{
    announcement_text, ascii_uppercase, hex_digit, json_char, json_chars, json_object, maybe_send,
    message_text, reply_text, sign_of, wanted, Reply, Request,
};
use crate::policy::Policy;
use crate::text::{ascii_lowercase, occurs_in, texts};
use crate::text_laws::{
    law_figure_shows_its_number, law_lower_case_forgets_case_alone, number, same_letters,
};

verus! {

/// Each decision carries its own sign, and the sign is what the message begins
/// with.
pub proof fn law_each_decision_has_its_own_sign(
    decision: Seq<char>,
    shout: Seq<char>,
    command: Seq<char>,
    reason: Seq<char>,
    source: Seq<char>,
    cwd: Seq<char>,
)
    ensures
        sign_of(decision).is_prefix_of(
            message_text(decision, shout, command, reason, source, cwd),
        ),
        sign_of("deny"@) != sign_of("ask"@),
        sign_of("deny"@) != sign_of("allow"@),
        sign_of("ask"@) != sign_of("allow"@),
{
    reveal_strlit("deny");
    reveal_strlit("ask");
    reveal_strlit("allow");
    assert("allow"@[1] == 'l' && "ask"@[1] == 's' && "deny"@[1] == 'e');
    reveal_strlit("🛑");
    reveal_strlit("⚠️");
    reveal_strlit("✅");
    assert("🛑"@[0] != "⚠️"@[0] && "🛑"@[0] != "✅"@[0] && "⚠️"@[0] != "✅"@[0]);
}

/// A notification is wanted for the decisions that the policy names, and for no
/// other: one is named if some element of the list is the same text but for the
/// case of its ASCII letters.
pub proof fn law_only_named_decisions_are_wanted(on: Seq<Seq<char>>, decision: Seq<char>)
    ensures
        wanted(on, decision) <==> exists|i: int|
            0 <= i < on.len() && same_letters(#[trigger] on[i], decision),
{
    assert forall|i: int| 0 <= i < on.len() implies (same_letters(#[trigger] on[i], decision)
        <==> ascii_lowercase(on[i]) == ascii_lowercase(decision)) by {
        law_lower_case_forgets_case_alone(on[i], decision);
    }
}

/// A list that names only one of the decisions wants none of the others.
pub proof fn law_one_decision_wants_no_other(on: Seq<Seq<char>>, name: Seq<char>)
    requires
        forall|i: int| 0 <= i < on.len() ==> #[trigger] on[i] == name,
    ensures
        name == "deny"@ ==> !wanted(on, "ask"@) && !wanted(on, "allow"@),
        name == "ask"@ ==> !wanted(on, "deny"@) && !wanted(on, "allow"@),
        name == "allow"@ ==> !wanted(on, "deny"@) && !wanted(on, "ask"@),
        on.len() > 0 ==> wanted(on, name),
{
    reveal_strlit("deny");
    reveal_strlit("ask");
    reveal_strlit("allow");
    law_only_named_decisions_are_wanted(on, "deny"@);
    law_only_named_decisions_are_wanted(on, "ask"@);
    law_only_named_decisions_are_wanted(on, "allow"@);
    law_only_named_decisions_are_wanted(on, name);
    if on.len() > 0 {
        assert(same_letters(on[0], name));
    }
}

/// A decision is wanted in whatever ASCII case it is written.
pub proof fn law_case_does_not_matter(on: Seq<Seq<char>>, a: Seq<char>, b: Seq<char>)
    requires
        same_letters(a, b),
    ensures
        wanted(on, a) == wanted(on, b),
{
    law_lower_case_forgets_case_alone(a, b);
}

/// One more name on the list adds that decision and nothing else.
pub proof fn law_naming_adds_one_decision(
    on: Seq<Seq<char>>,
    name: Seq<char>,
    decision: Seq<char>,
)
    ensures
        wanted(on.push(name), decision) == (wanted(on, decision) || same_letters(name, decision)),
{
    let more = on.push(name);
    law_lower_case_forgets_case_alone(name, decision);
    if wanted(on, decision) {
        let i = choose|i: int|
            0 <= i < on.len() && ascii_lowercase(#[trigger] on[i]) == ascii_lowercase(decision);
        assert(more[i] == on[i]);
    }
    if same_letters(name, decision) {
        assert(more[on.len() as int] == name);
    }
    if wanted(more, decision) {
        let i = choose|i: int|
            0 <= i < more.len() && ascii_lowercase(#[trigger] more[i]) == ascii_lowercase(decision);
        if i < on.len() {
            assert(on[i] == more[i]);
        }
    }
}

/// Upper case raises the ASCII small letters and keeps every other character.
pub proof fn law_upper_case_raises_small_letters(s: Seq<char>, i: int)
    requires
        0 <= i < s.len(),
    ensures
        ascii_uppercase(s).len() == s.len(),
        ascii_uppercase(s)[i] as int == s[i] as int - if 97 <= s[i] as int <= 122 {
            32int
        } else {
            0
        },
{
}

/// A policy that names no decision wants no notification.
pub proof fn law_nothing_asked_nothing_sent(decision: Seq<char>)
    ensures
        !wanted(Seq::empty(), decision),
{
}

proof fn lemma_json_chars_front(s: Seq<char>)
    requires
        s.len() > 0,
    ensures
        json_chars(s) == json_char(s[0]) + json_chars(s.drop_first()),
    decreases s.len(),
{
    if s.len() > 1 {
        lemma_json_chars_front(s.drop_last());
        assert(s.drop_last().drop_first() == s.drop_first().drop_last());
        assert(json_chars(s) =~= json_char(s[0]) + json_chars(s.drop_first()));
    } else {
        assert(s.drop_last() =~= Seq::<char>::empty());
        assert(s.drop_first() =~= Seq::<char>::empty());
        assert(json_chars(s) =~= json_char(s[0]) + json_chars(s.drop_first()));
    }
}

proof fn lemma_json_char_splits(x: char, y: char, u: Seq<char>, v: Seq<char>)
    requires
        json_char(x) + u == json_char(y) + v,
    ensures
        x == y,
        u == v,
{
    let a = json_char(x) + u;
    let b = json_char(y) + v;
    assert(a[0] == json_char(x)[0] && b[0] == json_char(y)[0]);
    assert(json_char(x).len() == 1 || a[1] == json_char(x)[1]);
    assert(json_char(y).len() == 1 || b[1] == json_char(y)[1]);
    if json_char(x).len() == 6 && json_char(y).len() == 6 {
        assert(a[4] == json_char(x)[4] && b[4] == json_char(y)[4]);
        assert(a[5] == json_char(x)[5] && b[5] == json_char(y)[5]);
        assert(hex_digit(x as int / 16) == hex_digit(y as int / 16));
        assert(hex_digit(x as int % 16) == hex_digit(y as int % 16));
    }
    assert(x == y);
    assert(u =~= a.skip(json_char(x).len() as int));
    assert(v =~= b.skip(json_char(y).len() as int));
}

proof fn lemma_json_chars_injective(a: Seq<char>, b: Seq<char>)
    requires
        json_chars(a) == json_chars(b),
    ensures
        a == b,
    decreases a.len(),
{
    if a.len() > 0 {
        lemma_json_chars_front(a);
    }
    if b.len() > 0 {
        lemma_json_chars_front(b);
    }
    if a.len() > 0 && b.len() > 0 {
        lemma_json_char_splits(
            a[0],
            b[0],
            json_chars(a.drop_first()),
            json_chars(b.drop_first()),
        );
        lemma_json_chars_injective(a.drop_first(), b.drop_first());
        assert(a =~= seq![a[0]] + a.drop_first());
        assert(b =~= seq![b[0]] + b.drop_first());
    } else {
        assert(a =~= b);
    }
}

/// Nothing of a message is lost in its body: different messages have different
/// bodies.
pub proof fn law_body_determines_message(key: Seq<char>, a: Seq<char>, b: Seq<char>)
    requires
        json_object(key, a) == json_object(key, b),
    ensures
        a == b,
{
    let head = "{\""@ + json_chars(key) + "\":\""@;
    let close = "\"}"@;
    let x = json_object(key, a);
    let y = json_object(key, b);
    assert(json_chars(a) =~= x.subrange(head.len() as int, x.len() - close.len()));
    assert(json_chars(b) =~= y.subrange(head.len() as int, y.len() - close.len()));
    lemma_json_chars_injective(a, b);
}

/// Whether JSON writes `s` as it is: it holds no quote mark, no backslash and no
/// control character.
pub open spec fn is_plain(s: Seq<char>) -> bool {
    forall|i: int|
        0 <= i < s.len() ==> #[trigger] s[i] != '"' && s[i] != '\\' && s[i] as int >= 32
}

/// How JSON writes one character: a quote mark, a backslash and a control
/// character begin with a backslash, and nothing else does. No control character
/// is left, and no quote mark but the one that stands behind its backslash.
pub proof fn law_special_characters_are_escaped(c: char)
    ensures
        json_char(c).len() > 0,
        is_plain(seq![c]) ==> json_char(c) == seq![c],
        !is_plain(seq![c]) ==> json_char(c).len() > 1 && json_char(c)[0] == '\\',
        c == '"' || c == '\\' ==> json_char(c) == seq!['\\', c],
        c != '"' ==> !json_char(c).contains('"'),
        forall|i: int| 0 <= i < json_char(c).len() ==> (#[trigger] json_char(c)[i]) as int >= 32,
{
    assert(seq![c][0] == c);
    let d = c as int;
    if d < 32 {
        assert(hex_digit(d / 16) as int >= 48 && hex_digit(d % 16) as int >= 48);
    }
}

proof fn lemma_json_chars_plain(s: Seq<char>)
    requires
        is_plain(s),
    ensures
        json_chars(s) == s,
    decreases s.len(),
{
    if s.len() > 0 {
        assert(is_plain(s.drop_last())) by {
            assert forall|i: int| 0 <= i < s.drop_last().len() implies #[trigger] s.drop_last()[i]
                != '"' && s.drop_last()[i] != '\\' && s.drop_last()[i] as int >= 32 by {
                assert(s.drop_last()[i] == s[i]);
            }
        }
        lemma_json_chars_plain(s.drop_last());
        let c = s[s.len() - 1];
        assert(c != '"');
        assert(json_char(c) == seq![c]);
        assert(s.drop_last() + seq![s.last()] =~= s);
    } else {
        assert(json_chars(s) =~= s);
    }
}

proof fn lemma_json_chars_add(a: Seq<char>, b: Seq<char>)
    ensures
        json_chars(a + b) == json_chars(a) + json_chars(b),
    decreases b.len(),
{
    if b.len() == 0 {
        assert(a + b =~= a);
        assert(json_chars(a) + json_chars(b) =~= json_chars(a));
    } else {
        assert((a + b).drop_last() =~= a + b.drop_last());
        lemma_json_chars_add(a, b.drop_last());
        assert(json_chars(a + b) =~= json_chars(a) + json_chars(b));
    }
}

/// A plain part of a message stands as it is in the body.
pub proof fn law_plain_text_stands_in_the_body(
    key: Seq<char>,
    before: Seq<char>,
    part: Seq<char>,
    after: Seq<char>,
)
    requires
        is_plain(part),
    ensures
        occurs_in(part, json_object(key, before + part + after)),
{
    let body = json_object(key, before + part + after);
    let head = "{\""@ + json_chars(key) + "\":\""@;
    lemma_json_chars_add(before + part, after);
    lemma_json_chars_add(before, part);
    lemma_json_chars_plain(part);
    let i: int = (head.len() + json_chars(before).len()) as int;
    assert(body =~= head + json_chars(before) + part + (json_chars(after) + "\"}"@));
    assert(body.subrange(i, i + part.len()) =~= part);
}

/// What reaches the webhook shows the sign of the decision and, where JSON
/// writes it as it is, the decision in upper case.
pub proof fn law_body_shows_the_decision(
    decision: Seq<char>,
    shout: Seq<char>,
    command: Seq<char>,
    reason: Seq<char>,
    source: Seq<char>,
    cwd: Seq<char>,
)
    ensures
        occurs_in(
            sign_of(decision),
            json_object("text"@, message_text(decision, shout, command, reason, source, cwd)),
        ),
        is_plain(shout) ==> occurs_in(
            shout,
            json_object("text"@, message_text(decision, shout, command, reason, source, cwd)),
        ),
{
    reveal_strlit("🛑");
    reveal_strlit("⚠️");
    reveal_strlit("✅");
    let sign = sign_of(decision);
    let text = message_text(decision, shout, command, reason, source, cwd);
    let rest = "* ["@ + source + "]\n`"@ + command + "`\n"@ + reason + "\n_"@ + cwd + "_"@;
    let empty = Seq::<char>::empty();
    assert(is_plain(sign));
    assert(text =~= empty + sign + (" *termaxa "@ + shout + rest));
    law_plain_text_stands_in_the_body("text"@, empty, sign, " *termaxa "@ + shout + rest);
    if is_plain(shout) {
        assert(text =~= sign + " *termaxa "@ + shout + rest);
        law_plain_text_stands_in_the_body("text"@, sign + " *termaxa "@, shout, rest);
    }
}

/// A message reads in four lines: the sign, the decision and the source; the
/// command; the reason; and the directory.
pub proof fn law_message_has_four_lines(
    decision: Seq<char>,
    shout: Seq<char>,
    command: Seq<char>,
    reason: Seq<char>,
    source: Seq<char>,
    cwd: Seq<char>,
)
    requires
        !shout.contains('\n'),
        !command.contains('\n'),
        !reason.contains('\n'),
        reason.len() > 0 ==> reason.last() != '\r',
        !source.contains('\n'),
        !cwd.contains('\n'),
    ensures
        lines(message_text(decision, shout, command, reason, source, cwd)) == seq![
            (if decision == "deny"@ {
                "🛑"@
            } else if decision == "ask"@ {
                "⚠️"@
            } else {
                "✅"@
            }) + " *termaxa "@ + shout + "* ["@ + source + "]"@,
            "`"@ + command + "`"@,
            reason,
            "_"@ + cwd + "_"@,
        ],
{
    reveal_strlit("🛑");
    reveal_strlit("⚠️");
    reveal_strlit("✅");
    reveal_strlit(" *termaxa ");
    reveal_strlit("* [");
    reveal_strlit("]\n`");
    reveal_strlit("]");
    reveal_strlit("`");
    reveal_strlit("`\n");
    reveal_strlit("\n_");
    reveal_strlit("_");
    let end = seq!['\n'];
    let first = sign_of(decision) + " *termaxa "@ + shout + "* ["@ + source + "]"@;
    let second = "`"@ + command + "`"@;
    let fourth = "_"@ + cwd + "_"@;
    assert("]\n`"@ =~= "]"@ + end + "`"@);
    assert("`\n"@ =~= "`"@ + end);
    assert("\n_"@ =~= end + "_"@);
    let head = sign_of(decision) + " *termaxa "@ + shout + "* ["@ + source;
    let text = message_text(decision, shout, command, reason, source, cwd);
    assert(text == head + "]\n`"@ + command + "`\n"@ + reason + "\n_"@ + cwd + "_"@);
    assert(text =~= (first + end) + ((second + end) + ((reason + end) + fourth)));
    lemma_no_newline_add(sign_of(decision), " *termaxa "@);
    lemma_no_newline_add(sign_of(decision) + " *termaxa "@, shout);
    lemma_no_newline_add(sign_of(decision) + " *termaxa "@ + shout, "* ["@);
    lemma_no_newline_add(sign_of(decision) + " *termaxa "@ + shout + "* ["@, source);
    lemma_no_newline_add(head, "]"@);
    lemma_no_newline_add("`"@, command);
    lemma_no_newline_add("`"@ + command, "`"@);
    lemma_no_newline_add("_"@, cwd);
    lemma_no_newline_add("_"@ + cwd, "_"@);
    assert(first.last() == ']');
    assert(second.last() == '`');
    assert(fourth.len() > 0);
    law_one_line_is_its_text(first);
    law_one_line_is_its_text(second);
    law_one_line_is_its_text(reason);
    law_one_line_is_its_text(fourth);
    law_lines_of_both_parts(first + end, (second + end) + ((reason + end) + fourth));
    law_lines_of_both_parts(second + end, (reason + end) + fourth);
    law_lines_of_both_parts(reason + end, fourth);
    assert(lines(text) =~= seq![first, second, reason, fourth]);
}

proof fn lemma_no_newline_add(a: Seq<char>, b: Seq<char>)
    requires
        !a.contains('\n'),
        !b.contains('\n'),
    ensures
        !(a + b).contains('\n'),
{
    if (a + b).contains('\n') {
        let i = choose|i: int| 0 <= i < (a + b).len() && (a + b)[i] == '\n';
        if i < a.len() {
            assert(a[i] == '\n');
        } else {
            assert(b[i - a.len()] == '\n');
        }
    }
}

/// What is printed ahead of a probe is two lines: where it goes, and for which
/// decisions notifications are sent.
pub proof fn law_announcement_has_two_lines(webhook: Seq<char>, on: Seq<char>)
    requires
        !webhook.contains('\n'),
        !on.contains('\n'),
        webhook.len() > 0 ==> webhook.last() != '\r',
        on.len() > 0 ==> on.last() != '\r',
    ensures
        lines(announcement_text(webhook, on)) == seq![
            "webhook : "@ + webhook,
            "on      : "@ + on,
        ],
{
    reveal_strlit("webhook : ");
    reveal_strlit("\non      : ");
    reveal_strlit("on      : ");
    reveal_strlit("\n");
    let end = seq!['\n'];
    let first = "webhook : "@ + webhook;
    let second = "on      : "@ + on;
    assert("\non      : "@ =~= end + "on      : "@);
    assert(announcement_text(webhook, on) =~= (first + end) + (second + end));
    lemma_no_newline_add("webhook : "@, webhook);
    lemma_no_newline_add("on      : "@, on);
    assert(webhook.len() > 0 ==> first.last() == webhook.last());
    assert(on.len() > 0 ==> second.last() == on.last());
    law_one_line_is_its_text(first);
    law_one_line_is_its_text(second);
    law_lines_of_both_parts(first + end, second + end);
    assert(lines(announcement_text(webhook, on)) =~= seq![first, second]);
}

/// What is printed about a reply shows its status, and of a failure why.
pub proof fn law_reply_shows_what_came_back(status: u16, why: String)
    ensures
        ({
            let a = "result  : HTTP "@;
            let delivered = reply_text(Reply::Delivered(status));
            let rejected = reply_text(Reply::Rejected(status));
            let yes = " — probe delivered\n"@;
            let no = " — endpoint reachable but rejected the probe\n"@;
            &&& a.is_prefix_of(delivered) && yes.is_suffix_of(delivered)
            &&& number(delivered.subrange(a.len() as int, delivered.len() - yes.len())) == status
            &&& a.is_prefix_of(rejected) && no.is_suffix_of(rejected)
            &&& number(rejected.subrange(a.len() as int, rejected.len() - no.len())) == status
        }),
        ({
            let a = "result  : FAILED — "@;
            let hint = "\nhint    : check the URL, your network, or firewall\n"@;
            let failed = reply_text(Reply::Failed(why));
            &&& a.is_prefix_of(failed) && hint.is_suffix_of(failed)
            &&& failed.subrange(a.len() as int, failed.len() - hint.len()) == why@
        }),
{
    let a = "result  : HTTP "@;
    law_figure_shows_its_number(a, status as nat, " — probe delivered\n"@);
    law_figure_shows_its_number(
        a,
        status as nat,
        " — endpoint reachable but rejected the probe\n"@,
    );
    let a = "result  : FAILED — "@;
    let hint = "\nhint    : check the URL, your network, or firewall\n"@;
    let f = reply_text(Reply::Failed(why));
    assert(f.subrange(0, a.len() as int) =~= a);
    assert(f.subrange(f.len() - hint.len(), f.len() as int) =~= hint);
    assert(f.subrange(a.len() as int, f.len() - hint.len()) =~= why@);
}

/// A notification goes out, to the webhook of the policy, exactly if the policy
/// has a `notify:` section that names the decision, in whatever ASCII case.
pub proof fn law_sent_only_if_named(
    policy: &Policy,
    decision: &str,
    command: &str,
    reason: &str,
    source: &str,
    cwd: &str,
    r: Option<Request>,
)
    requires
        call_ensures(maybe_send, (policy, decision, command, reason, source, cwd), r),
    ensures
        policy.notify is None ==> r is None,
        policy.notify matches Some(cfg) ==> (r is Some <==> exists|i: int|
            0 <= i < cfg.on@.len() && same_letters((#[trigger] cfg.on@[i])@, decision@)),
        r is Some ==> r->0.url@ == policy.notify->0.webhook@,
{
    if let Some(cfg) = policy.notify {
        let on = texts(cfg.on@);
        law_only_named_decisions_are_wanted(on, decision@);
        if r is Some {
            let i = choose|i: int| 0 <= i < on.len() && same_letters(#[trigger] on[i], decision@);
            assert(cfg.on@[i]@ == on[i]);
        }
        if exists|i: int|
            0 <= i < cfg.on@.len() && same_letters((#[trigger] cfg.on@[i])@, decision@) {
            let i = choose|i: int|
                0 <= i < cfg.on@.len() && same_letters((#[trigger] cfg.on@[i])@, decision@);
            assert(on[i] == cfg.on@[i]@);
        }
    }
}

} // verus!
