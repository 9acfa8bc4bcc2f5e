//! Webhook notifications for decisions.
//!
//! This layer must never delay or break enforcement: a notification has a hard
//! timeout and its outcome is ignored, since the decision already stands. The
//! probe of `termaxa notify --test` is the counterweight: it says what
//! happened. Requests are composed here and made by the caller.

use vstd::prelude::*;
use vstd::string::*;
use vstd::utf8::*;

use crate::policy::{Notify, Policy};
use crate::text::{ascii_lowercase, figure, push_figure, same, texts, to_lowercase};

verus! {

/// Seconds that a notification may take.
pub const SEND_TIMEOUT: u64 = 3;

/// Seconds that a probe may take.
pub const PROBE_TIMEOUT: u64 = 5;

/// The content type of every request.
pub const CONTENT_TYPE: &'static str = "application/json";

/// What the probe says.
pub const PROBE_TEXT: &'static str =
    "✅ *termaxa notify --test* — if you can read this, notifications work.";

/// A POST request to make.
#[derive(Debug)]
pub struct Request {
    pub url: String,
    pub body: String,
    /// Seconds after which to give up.
    pub timeout: u64,
}

/// The ASCII capital of an ASCII small letter, else `c`.
pub open spec fn ascii_upper(c: char) -> char {
    if 'a' <= c <= 'z' {
        (c as u8 - 32) as char
    } else {
        c
    }
}

/// `s` with its ASCII small letters in upper case.
pub open spec fn ascii_uppercase(s: Seq<char>) -> Seq<char> {
    s.map_values(|c: char| ascii_upper(c))
}

/// The upper case of a text, as `str::to_uppercase` gives it.
pub uninterp spec fn uppercase(s: Seq<char>) -> Seq<char>;

/// `str::to_uppercase` gives the Unicode upper case of a string, which depends
/// on the string alone. Of one in ASCII it is the string with each small
/// letter replaced by its capital.
pub assume_specification[ str::to_uppercase ](s: &str) -> (r: String)
    ensures
        r@ == uppercase(s@),
        is_ascii_chars(s@) ==> r@ == ascii_uppercase(s@),
;

/// The hexadecimal digit for `d < 16`.
pub open spec fn hex_digit(d: int) -> char {
    if d < 10 {
        (48 + d) as char
    } else {
        (87 + d) as char
    }
}

/// How a character is written in a JSON string.
pub open spec fn json_char(c: char) -> Seq<char> {
    if c == '"' {
        seq!['\\', '"']
    } else if c == '\\' {
        seq!['\\', '\\']
    } else if c == '\u{8}' {
        seq!['\\', 'b']
    } else if c == '\t' {
        seq!['\\', 't']
    } else if c == '\n' {
        seq!['\\', 'n']
    } else if c == '\u{c}' {
        seq!['\\', 'f']
    } else if c == '\r' {
        seq!['\\', 'r']
    } else if c <= '\u{1f}' {
        seq!['\\', 'u', '0', '0', hex_digit(c as int / 16), hex_digit(c as int % 16)]
    } else {
        seq![c]
    }
}

/// The characters of `s` as they are written in a JSON string.
pub open spec fn json_chars(s: Seq<char>) -> Seq<char>
    decreases s.len(),
{
    if s.len() == 0 {
        Seq::empty()
    } else {
        json_chars(s.drop_last()) + json_char(s.last())
    }
}

/// A JSON object with one member, a string.
pub open spec fn json_object(key: Seq<char>, value: Seq<char>) -> Seq<char> {
    "{\""@ + json_chars(key) + "\":\""@ + json_chars(value) + "\"}"@
}

/// `serde_json` writes a `Value::Object` without white space: its one member's
/// name and string in quotes. Quotes, backslashes and control characters are
/// escaped, the latter by a letter where JSON has one and in hexadecimal where
/// it does not; all else is written as it is.
#[verifier::external_body]
fn write_object(key: &str, value: &str) -> (text: String)
    ensures
        text@ == json_object(key@, value@),
{
    let mut map = serde_json::Map::new();
    map.insert(key.to_owned(), serde_json::Value::String(value.to_owned()));
    serde_json::Value::Object(map).to_string()
}

/// The sign of a decision: the first thing a reader sees in the channel.
pub open spec fn sign_of(decision: Seq<char>) -> Seq<char> {
    if decision == "deny"@ {
        "🛑"@
    } else if decision == "ask"@ {
        "⚠️"@
    } else {
        "✅"@
    }
}

/// The text of a notification; `shout` is the decision in upper case.
pub open spec fn message_text(
    decision: Seq<char>,
    shout: Seq<char>,
    command: Seq<char>,
    reason: Seq<char>,
    source: Seq<char>,
    cwd: Seq<char>,
) -> Seq<char> {
    sign_of(decision) + " *termaxa "@ + shout + "* ["@ + source + "]\n`"@ + command + "`\n"@ + reason
        + "\n_"@ + cwd + "_"@
}

/// The text of a notification; `shout` is the decision in upper case.
pub fn message(
    decision: &str,
    shout: &str,
    command: &str,
    reason: &str,
    source: &str,
    cwd: &str,
) -> (text: String)
    ensures
        text@ == message_text(decision@, shout@, command@, reason@, source@, cwd@),
{
    let mut text = String::from_str(
        if same(decision, "deny") {
            "🛑"
        } else if same(decision, "ask") {
            "⚠️"
        } else {
            "✅"
        },
    );
    text.append(" *termaxa ");
    text.append(shout);
    text.append("* [");
    text.append(source);
    text.append("]\n`");
    text.append(command);
    text.append("`\n");
    text.append(reason);
    text.append("\n_");
    text.append(cwd);
    text.append("_");
    text
}

/// Whether a notification is wanted for a decision: it is named, in whatever
/// ASCII case.
pub open spec fn wanted(on: Seq<Seq<char>>, decision: Seq<char>) -> bool {
    exists|i: int|
        0 <= i < on.len() && ascii_lowercase(#[trigger] on[i]) == ascii_lowercase(decision)
}

/// Whether the policy wants a notification for a decision.
pub fn is_wanted(cfg: &Notify, decision: &str) -> (r: bool)
    ensures
        r == wanted(texts(cfg.on@), decision@),
{
    let want = to_lowercase(decision);
    let mut i: usize = 0;
    while i < cfg.on.len()
        invariant
            i <= cfg.on@.len(),
            want@ == ascii_lowercase(decision@),
            forall|k: int|
                0 <= k < i ==> ascii_lowercase(#[trigger] texts(cfg.on@)[k]) != ascii_lowercase(
                    decision@,
                ),
        decreases cfg.on@.len() - i,
    {
        let name = to_lowercase(cfg.on[i].as_str());
        assert(texts(cfg.on@)[i as int] == cfg.on@[i as int]@);
        if same(name.as_str(), want.as_str()) {
            return true;
        }
        i += 1;
    }
    false
}

/// The request that carries a notification.
fn send(cfg: &Notify, decision: &str, command: &str, reason: &str, source: &str, cwd: &str) -> (r:
    Request)
    ensures
        r.url@ == cfg.webhook@,
        r.body@ == json_object(
            "text"@,
            message_text(decision@, uppercase(decision@), command@, reason@, source@, cwd@),
        ),
        is_ascii_chars(decision@) ==> uppercase(decision@) == ascii_uppercase(decision@),
        r.timeout == SEND_TIMEOUT,
{
    let shout = decision.to_uppercase();
    let text = message(decision, shout.as_str(), command, reason, source, cwd);
    Request {
        url: cfg.webhook.clone(),
        body: write_object("text", text.as_str()),
        timeout: SEND_TIMEOUT,
    }
}

/// The webhook notification for a decision, if the policy asks for one. `cwd`
/// is the current directory.
pub fn maybe_send(
    policy: &Policy,
    decision: &str,
    command: &str,
    reason: &str,
    source: &str,
    cwd: &str,
) -> (r: Option<Request>)
    ensures
        match (policy.notify, r) {
            (Some(cfg), Some(q)) => {
                &&& wanted(texts(cfg.on@), decision@)
                &&& q.url@ == cfg.webhook@
                &&& q.body@ == json_object(
                    "text"@,
                    message_text(decision@, uppercase(decision@), command@, reason@, source@, cwd@),
                )
                &&& is_ascii_chars(decision@) ==> uppercase(decision@) == ascii_uppercase(decision@)
                &&& q.timeout == SEND_TIMEOUT
            },
            (Some(cfg), None) => !wanted(texts(cfg.on@), decision@),
            (None, q) => q is None,
        },
{
    match &policy.notify {
        Some(cfg) => if is_wanted(cfg, decision) {
            Some(send(cfg, decision, command, reason, source, cwd))
        } else {
            None
        },
        None => None,
    }
}

/// What to print, whether on standard error, and the exit code.
#[derive(Debug)]
pub struct Verdict {
    pub text: String,
    pub on_stderr: bool,
    pub code: i32,
}

/// What `test` does: it ends at once, or prints a text and makes a request.
#[derive(Debug)]
pub enum Probe {
    Nothing(Verdict),
    Send(String, Request),
}

/// How a list of strings is written for inspection, as its `Debug` format
/// writes it.
pub uninterp spec fn debug_text(list: Seq<Seq<char>>) -> Seq<char>;

/// The `Debug` format of a `Vec<String>`: the strings quoted and escaped, in
/// brackets. It depends on the strings alone.
#[verifier::external_body]
fn write_debug(list: &Vec<String>) -> (text: String)
    ensures
        text@ == debug_text(texts(list@)),
{
    format!("{:?}", list)
}

/// What is printed ahead of a probe; `on` is the list of decisions as written.
pub open spec fn announcement_text(webhook: Seq<char>, on: Seq<char>) -> Seq<char> {
    "webhook : "@ + webhook + "\non      : "@ + on + "\n"@
}

/// What is printed ahead of a probe; `on` is the list of decisions as written.
pub fn announcement(webhook: &str, on: &str) -> (text: String)
    ensures
        text@ == announcement_text(webhook@, on@),
{
    let mut text = String::from_str("webhook : ");
    text.append(webhook);
    text.append("\non      : ");
    text.append(on);
    text.append("\n");
    text
}

/// The probe of `termaxa notify --test`.
pub fn test(policy: &Policy) -> (r: Probe)
    ensures
        match (policy.notify, r) {
            (Some(cfg), Probe::Send(text, q)) => {
                &&& text@ == announcement_text(cfg.webhook@, debug_text(texts(cfg.on@)))
                &&& q.url@ == cfg.webhook@
                &&& q.body@ == json_object("text"@, PROBE_TEXT@)
                &&& q.timeout == PROBE_TIMEOUT
            },
            (None, Probe::Nothing(v)) => {
                &&& v.text@
                    == "no `notify:` section found in .termaxa/policy.yaml — nothing to test\n"@
                &&& v.on_stderr
                &&& v.code == 1
            },
            _ => false,
        },
{
    match &policy.notify {
        Some(cfg) => {
            let on = write_debug(&cfg.on);
            Probe::Send(
                announcement(cfg.webhook.as_str(), on.as_str()),
                Request {
                    url: cfg.webhook.clone(),
                    body: write_object("text", PROBE_TEXT),
                    timeout: PROBE_TIMEOUT,
                },
            )
        },
        None => Probe::Nothing(
            Verdict {
                text: String::from_str(
                    "no `notify:` section found in .termaxa/policy.yaml — nothing to test\n",
                ),
                on_stderr: true,
                code: 1,
            },
        ),
    }
}

/// What came back of a probe.
#[derive(Debug)]
pub enum Reply {
    /// The endpoint accepted it, with this status.
    Delivered(u16),
    /// The endpoint rejected it, with this status.
    Rejected(u16),
    /// It never got there, for this reason.
    Failed(String),
}

/// What is printed about a reply.
pub open spec fn reply_text(reply: Reply) -> Seq<char> {
    match reply {
        Reply::Delivered(status) => figure(
            "result  : HTTP "@,
            status as nat,
            " — probe delivered\n"@,
        ),
        Reply::Rejected(status) => figure(
            "result  : HTTP "@,
            status as nat,
            " — endpoint reachable but rejected the probe\n"@,
        ),
        Reply::Failed(why) => "result  : FAILED — "@ + why@
            + "\nhint    : check the URL, your network, or firewall\n"@,
    }
}

/// What a probe comes to: only a delivered one is a success.
pub fn conclude(reply: &Reply) -> (v: Verdict)
    ensures
        v.text@ == reply_text(*reply),
        v.on_stderr == !(reply is Delivered),
        v.code == if reply is Delivered {
            0i32
        } else {
            1
        },
{
    let mut text = String::new();
    match reply {
        Reply::Delivered(status) => {
            push_figure(&mut text, "result  : HTTP ", *status as u64, " — probe delivered\n");
            assert(text@ == reply_text(*reply));
            Verdict { text, on_stderr: false, code: 0 }
        },
        Reply::Rejected(status) => {
            push_figure(
                &mut text,
                "result  : HTTP ",
                *status as u64,
                " — endpoint reachable but rejected the probe\n",
            );
            assert(text@ == reply_text(*reply));
            Verdict { text, on_stderr: true, code: 1 }
        },
        Reply::Failed(why) => {
            text.append("result  : FAILED — ");
            text.append(why.as_str());
            text.append("\nhint    : check the URL, your network, or firewall\n");
            assert(text@ == reply_text(*reply));
            Verdict { text, on_stderr: true, code: 1 }
        },
    }
}

} // verus!
