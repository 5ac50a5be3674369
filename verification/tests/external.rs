use golem_runner::data_driven::DataRow;
use golem_runner::element::Bounds;
use golem_runner::external::{
    alert_next, await_email_credentials, email_record, exit_failure_message, run_record, extract_fields, fail_message, http_failure_message,
    inbox_credentials, inbox_object, no_buttons_message, resolve_script_path, supported_http_method,
    AlertAction, InboxAccount, InboxError, InboxField, ScriptPathError,
};

fn account() -> InboxAccount {
    InboxAccount {
        user: "abc123@ethereal.email".to_string(),
        pass: "s3cretP4ss".to_string(),
        imap_host: "imap.ethereal.email".to_string(),
        imap_port: 993,
        smtp_host: "smtp.ethereal.email".to_string(),
        smtp_port: 587,
    }
}

fn row(pairs: &[(&str, &str)]) -> DataRow {
    DataRow::from_pairs(pairs.iter().map(|(k, v)| (k.to_string(), v.to_string())).collect())
}

#[test]
fn inbox_object_exposes_await_email_contract() {
    let obj = inbox_object(&account());
    let get = |k: &str| obj.get(k).map(|v| v.as_str()).unwrap_or_else(|| panic!("missing field {k}"));
    assert_eq!(get("address"), "abc123@ethereal.email");
    assert_eq!(get("user"), "abc123@ethereal.email");
    assert_eq!(get("pass"), "s3cretP4ss");
    assert_eq!(get("imap_host"), "imap.ethereal.email");
    assert_eq!(get("imap_port"), "993");
    assert_eq!(get("smtp_host"), "smtp.ethereal.email");
    assert_eq!(get("smtp_port"), "587");
}

#[test]
fn saved_inbox_feeds_await_email() {
    let creds = inbox_credentials("inbox", &inbox_object(&account())).expect("credentials");
    assert_eq!(creds.imap_host, "imap.ethereal.email");
    assert_eq!(creds.imap_port, 993);
    assert_eq!(creds.user, "abc123@ethereal.email");
    assert_eq!(creds.pass, "s3cretP4ss");
}

#[test]
fn inbox_fields_are_checked_in_order() {
    let err = inbox_credentials("test_inbox", &row(&[("imap_port", "993")])).expect_err("no host");
    assert_eq!(err, InboxError { inbox: "test_inbox".to_string(), field: InboxField::ImapHost });
    assert!(err.message().contains("imap_host"));
    let bad_port = row(&[("imap_host", "imap.example.com"), ("imap_port", "not-a-number")]);
    let err = inbox_credentials("test_inbox", &bad_port).expect_err("bad port");
    assert_eq!(err.field, InboxField::ImapPort);
    assert_eq!(err.message(), "await_email: test_inbox.imap_port not found or invalid");
    let big_port = row(&[("imap_host", "h"), ("imap_port", "65536")]);
    assert_eq!(inbox_credentials("i", &big_port).expect_err("too big").field, InboxField::ImapPort);
    let no_user = row(&[("imap_host", "h"), ("imap_port", "+143")]);
    let err = inbox_credentials("i", &no_user).expect_err("no user");
    assert_eq!(err.field, InboxField::User);
    assert_eq!(err.message(), "await_email: i.user not found");
    let no_pass = row(&[("imap_host", "h"), ("imap_port", "143"), ("user", "u")]);
    assert_eq!(inbox_credentials("i", &no_pass).expect_err("no pass").field, InboxField::Pass);
}

#[test]
fn extract_takes_group_one_or_the_whole_match() {
    let body = "Your code is 482913. Visit https://example.com/verify?t=abc to confirm.";
    let patterns = vec![
        ("code".to_string(), r"code is (\d+)".to_string()),
        ("link".to_string(), r"https://\S+".to_string()),
        ("missing".to_string(), r"nothing here (\d+)".to_string()),
        ("opt".to_string(), r"Your (x)?code".to_string()),
    ];
    let out = extract_fields(&patterns, body).expect("valid patterns");
    assert_eq!(
        out,
        vec![
            ("code".to_string(), "482913".to_string()),
            ("link".to_string(), "https://example.com/verify?t=abc".to_string()),
            ("opt".to_string(), "Your code".to_string()),
        ]
    );
}

#[test]
fn extract_reports_the_first_invalid_pattern() {
    let patterns = vec![
        ("ok".to_string(), "a".to_string()),
        ("broken".to_string(), "foo(bar".to_string()),
        ("also".to_string(), "[".to_string()),
    ];
    let err = extract_fields(&patterns, "aaa").expect_err("invalid regex");
    assert_eq!(err.key, "broken");
    assert!(err.message().starts_with("await_email: invalid regex for 'broken': "));
}

#[test]
fn http_methods_and_failure_message() {
    for m in ["GET", "POST", "PUT", "PATCH", "DELETE"] {
        assert!(supported_http_method(m));
    }
    assert!(!supported_http_method("get"));
    assert!(!supported_http_method("HEAD"));
    assert_eq!(
        http_failure_message("POST", "https://api.test/x", 503, "down"),
        "HTTP POST https://api.test/x returned status 503: down"
    );
}

#[test]
fn script_paths_resolve_against_root_or_flow_dir() {
    assert_eq!(resolve_script_path("../evil.sh", "/proj", "/proj/flows"), Err(ScriptPathError::PathTraversal));
    assert_eq!(resolve_script_path("a/..b", "/proj", "/proj/flows"), Err(ScriptPathError::PathTraversal));
    assert_eq!(resolve_script_path("/scripts/seed.sh", "/proj", "/proj/flows").as_deref(), Ok("/proj/scripts/seed.sh"));
    assert_eq!(resolve_script_path("//x.sh", "/proj/", "/f").as_deref(), Ok("/proj/x.sh"));
    assert_eq!(resolve_script_path("seed.sh", "/proj", "/proj/flows").as_deref(), Ok("/proj/flows/seed.sh"));
    assert_eq!(
        ScriptPathError::PathTraversal.message(),
        "run action: path traversal ('..') is not allowed in script path"
    );
}

#[test]
fn command_failures_name_exit_code_and_trimmed_stderr() {
    assert_eq!(
        exit_failure_message("Command", Some(2), "  no such file \n"),
        "Command failed with exit code 2: no such file"
    );
    assert_eq!(exit_failure_message("Script", None, ""), "Script failed with exit code -1: ");
    assert_eq!(exit_failure_message("Script", Some(-9), "x"), "Script failed with exit code -9: x");
}

#[test]
fn fail_step_message_defaults() {
    assert_eq!(fail_message(Some("boom")), "boom");
    assert_eq!(fail_message(None), "Flow failed (no message provided)");
}

#[test]
fn alerts_tap_last_to_accept_first_to_dismiss() {
    let cancel = Bounds { x: 0, y: 100, width: 100, height: 40 };
    let ok = Bounds { x: 100, y: 100, width: 100, height: 40 };
    assert_eq!(alert_next(true, false, Some(&[cancel, ok])), AlertAction::Tap(150, 120));
    assert_eq!(alert_next(false, false, Some(&[cancel, ok])), AlertAction::Tap(50, 120));
    assert_eq!(alert_next(true, true, Some(&[ok])), AlertAction::Tap(150, 120));
    assert_eq!(alert_next(false, false, Some(&[])), AlertAction::NoButtons);
    assert_eq!(alert_next(true, false, None), AlertAction::PokeThenRetry);
    assert_eq!(alert_next(true, true, None), AlertAction::Retry);
    assert_eq!(alert_next(false, false, None), AlertAction::Retry);
    assert_eq!(no_buttons_message(true), "accept_alert failed: no buttons found in alert");
    assert_eq!(no_buttons_message(false), "dismiss_alert failed: no buttons found in alert");
}

#[test]
fn run_record_saves_trimmed_stdout_and_exit_code() {
    let r = run_record("partial\n", Some(7));
    assert_eq!(r.len(), 2);
    assert_eq!(r.get("stdout").map(|s| s.as_str()), Some("partial"));
    assert_eq!(r.get("exit_code").map(|s| s.as_str()), Some("7"));
    let r = run_record("  x ", None);
    assert_eq!(r.get("stdout").map(|s| s.as_str()), Some("x"));
    assert_eq!(r.get("exit_code").map(|s| s.as_str()), Some("-1"));
}

#[test]
fn email_record_holds_fields_then_extracted() {
    let extracted = vec![("code".to_string(), "123456".to_string()), ("subject".to_string(), "over".to_string())];
    let r = email_record("body text", "Welcome", "a@x", "b@y", "today", &extracted);
    assert_eq!(r.len(), 6);
    assert_eq!(r.get("body").map(|s| s.as_str()), Some("body text"));
    assert_eq!(r.get("from").map(|s| s.as_str()), Some("a@x"));
    assert_eq!(r.get("to").map(|s| s.as_str()), Some("b@y"));
    assert_eq!(r.get("date").map(|s| s.as_str()), Some("today"));
    assert_eq!(r.get("code").map(|s| s.as_str()), Some("123456"));
    assert_eq!(r.get("subject").map(|s| s.as_str()), Some("over"));
}

#[test]
fn await_email_fails_when_inbox_not_in_vars() {
    let e = await_email_credentials("test_inbox", None).unwrap_err();
    assert_eq!(e.field, InboxField::Inbox);
    assert_eq!(e.message(), "await_email: inbox 'test_inbox' not found in variables");
    assert!(e.message().contains("not found"));
    let ok = await_email_credentials("test_inbox", Some(&DataRow::from_pairs(vec![
        ("imap_host".to_string(), "imap.example.com".to_string()),
        ("imap_port".to_string(), "993".to_string()),
        ("user".to_string(), "u".to_string()),
        ("pass".to_string(), "p".to_string()),
    ])));
    assert_eq!(ok.expect("complete inbox").imap_port, 993);
}
