//! What is sent to the webhook, and what the probe reports.

use termaxa::notify::{
    announcement, conclude, is_wanted, maybe_send, message, Probe, Reply, Request,
    CONTENT_TYPE, PROBE_TIMEOUT, SEND_TIMEOUT,
};
use termaxa::policy::{Notify, Policy};

fn policy_with(webhook: &str, on: Vec<&str>) -> Policy {
    Policy {
        notify: Some(Notify {
            webhook: webhook.to_string(),
            on: on.into_iter().map(|d| d.to_string()).collect(),
        }),
    }
}

fn sent(policy: &Policy, decision: &str) -> Option<Request> {
    maybe_send(
        policy,
        decision,
        "rm -rf /",
        "matched a rule",
        "hook",
        "/work",
    )
}

#[test]
fn each_decision_carries_its_own_mark() {
    // The mark is the first thing a reader sees in the channel, and it is
    // the only part of the message that distinguishes a block from an
    // approval at a glance.
    for (decision, mark) in [("deny", "🛑"), ("ask", "⚠️"), ("allow", "✅")] {
        let policy = policy_with("http://127.0.0.1:1/hook", vec![decision]);
        let got = sent(&policy, decision).expect("the policy asks for it").body;
        assert!(
            got.contains(mark),
            "a {decision} should be marked {mark}: {got:?}"
        );
        assert!(got.contains(&decision.to_uppercase()), "{got:?}");
    }
}

#[test]
fn only_the_decisions_the_policy_asked_for_are_sent() {
    // `on: [deny]` is the default, and a webhook that fires on every
    // decision is one people mute.
    let policy = policy_with("http://127.0.0.1:1/hook", vec!["deny"]);
    assert!(
        maybe_send(&policy, "allow", "ls", "no rule matched", "hook", "/work").is_none(),
        "an allow must not reach a deny-only webhook"
    );
    assert!(sent(&policy, "deny").is_some());
    assert!(sent(&policy_with("u", vec![]), "deny").is_none());
}

#[test]
fn decisions_are_matched_in_any_ascii_case() {
    let policy = policy_with("u", vec!["Ask", "DENY"]);
    for decision in ["ask", "ASK", "deny", "Deny"] {
        assert!(sent(&policy, decision).is_some(), "{decision}");
    }
    for decision in ["allow", "den", "denyy", "", "dény"] {
        assert!(sent(&policy, decision).is_none(), "{decision}");
    }
    let cfg = policy_with("u", vec!["É"]).notify.expect("present");
    assert!(is_wanted(&cfg, "É"));
    assert!(!is_wanted(&cfg, "é"));
}

#[test]
fn the_notification_exactly() {
    let policy = policy_with("https://hooks.example/x", vec!["deny"]);
    let request = maybe_send(
        &policy,
        "deny",
        "echo \"a\\b\"\t\u{1}\u{7f}é",
        "matched\r\n",
        "hook",
        "/work\u{1f}",
    )
    .expect("the policy asks for it");
    assert_eq!(request.url, "https://hooks.example/x");
    assert_eq!(
        request.body,
        "{\"text\":\"🛑 *termaxa DENY* [hook]\\n`echo \\\"a\\\\b\\\"\\t\\u0001\u{7f}é`\\nmatched\\r\\n\\n_/work\\u001f_\"}"
    );
    assert_eq!(request.timeout, 3);
    assert_eq!(SEND_TIMEOUT, 3);
    assert_eq!(CONTENT_TYPE, "application/json");
}

#[test]
fn every_control_character_is_written_as_json_has_it() {
    let policy = policy_with("u", vec!["x"]);
    let mut all = String::new();
    for n in 0u8..=0x7f {
        all.push(n as char);
    }
    let body = maybe_send(&policy, "x", &all, "", "", "").expect("wanted").body;
    let value: serde_json::Value = serde_json::from_str(&body).expect("the body is JSON");
    assert_eq!(
        value["text"].as_str().expect("a string"),
        format!("✅ *termaxa X* []\n`{all}`\n\n__")
    );
    assert!(body.contains("\\u0000\\u0001\\u0002\\u0003\\u0004\\u0005\\u0006\\u0007\\b\\t\\n\\u000b\\f\\r\\u000e\\u000f\\u0010"));
    assert!(body.contains("\\u001a\\u001b\\u001c\\u001d\\u001e\\u001f !\\\"#"));
    assert!(body.contains("[\\\\]"));
}

#[test]
fn a_decision_is_shouted_as_unicode_has_it() {
    let policy = policy_with("u", vec!["straße"]);
    let body = sent(&policy, "straße").expect("wanted").body;
    assert!(body.contains("*termaxa STRASSE*"), "{body:?}");
}

#[test]
fn the_message_exactly() {
    assert_eq!(
        message("ask", "ASK", "ls", "why", "run", "/w"),
        "⚠️ *termaxa ASK* [run]\n`ls`\nwhy\n_/w_"
    );
    assert_eq!(
        message("allow", "", "", "", "", ""),
        "✅ *termaxa * []\n``\n\n__"
    );
    // Only the exact words have signs of their own.
    assert!(message("DENY", "DENY", "", "", "", "").starts_with('✅'));
}

#[test]
fn the_probe_reports_what_the_endpoint_actually_said() {
    // The normal path is fire-and-forget, which means a misconfigured
    // webhook fails silently. This command is the counterweight, so its
    // exit code has to distinguish delivered from rejected.
    let policy = policy_with("http://127.0.0.1:1/hook", vec!["deny"]);
    let Probe::Send(text, request) = termaxa::notify::test(&policy) else {
        panic!("the probe must not error");
    };
    assert_eq!(text, "webhook : http://127.0.0.1:1/hook\non      : [\"deny\"]\n");
    assert!(
        request.body.contains("termaxa notify --test"),
        "the probe says which command sent it"
    );
    assert_eq!(
        request.body,
        "{\"text\":\"✅ *termaxa notify --test* — if you can read this, notifications work.\"}"
    );
    assert_eq!(request.url, "http://127.0.0.1:1/hook");
    assert_eq!(request.timeout, 5);
    assert_eq!(PROBE_TIMEOUT, 5);

    let delivered = conclude(&Reply::Delivered(200));
    assert_eq!(delivered.code, 0);
    assert!(!delivered.on_stderr);
    assert_eq!(delivered.text, "result  : HTTP 200 — probe delivered\n");

    let rejected = conclude(&Reply::Rejected(500));
    assert_eq!(
        rejected.code, 1,
        "an endpoint that rejects the probe is not a working webhook"
    );
    assert!(rejected.on_stderr);
    assert_eq!(
        rejected.text,
        "result  : HTTP 500 — endpoint reachable but rejected the probe\n"
    );

    let failed = conclude(&Reply::Failed("no route".to_string()));
    assert_eq!(failed.code, 1);
    assert!(failed.on_stderr);
    assert_eq!(
        failed.text,
        "result  : FAILED — no route\nhint    : check the URL, your network, or firewall\n"
    );
}

#[test]
fn a_policy_with_no_notify_section_has_nothing_to_test() {
    let policy = Policy { notify: None };
    let Probe::Nothing(verdict) = termaxa::notify::test(&policy) else {
        panic!("a missing section is not an error");
    };
    assert_eq!(
        verdict.code, 1,
        "there is nothing to report on, and saying so is not success"
    );
    assert!(verdict.on_stderr);
    assert_eq!(
        verdict.text,
        "no `notify:` section found in .termaxa/policy.yaml — nothing to test\n"
    );
    // And nothing is sent.
    assert!(maybe_send(&policy, "deny", "rm -rf /", "matched", "hook", "/work").is_none());
}

#[test]
fn the_announcement_writes_the_list_for_inspection() {
    assert_eq!(announcement("u", "[]"), "webhook : u\non      : []\n");
    let Probe::Send(text, _) = termaxa::notify::test(&policy_with("u", vec!["a", "b\"c"])) else {
        panic!("there is a section");
    };
    assert_eq!(text, "webhook : u\non      : [\"a\", \"b\\\"c\"]\n");
}
