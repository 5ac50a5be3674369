use golem_runner::actions::{missing_param_message, unknown_action_message, Action};

const KEYWORDS: [&str; 40] = [
    "tap", "double_tap", "type", "backspace", "long_press", "swipe", "pinch", "gesture", "scroll",
    "read", "hide_keyboard", "assert_visible", "assert_not_visible", "assert_alert",
    "accept_alert", "dismiss_alert", "fail", "launch", "stop", "clear_data", "rotate",
    "dark_mode", "set_location", "press", "grant_permission", "revoke_permission", "screenshot",
    "add_media", "open_link", "push_notification", "bash", "run", "await_email", "create_inbox",
    "load_fixture", "get_http", "post_http", "put_http", "patch_http", "delete_http",
];

#[test]
fn every_keyword_parses_to_an_action_with_that_keyword() {
    let mut seen = Vec::new();
    for k in KEYWORDS {
        let a = Action::parse(k).unwrap_or_else(|| panic!("{k} SHALL parse"));
        assert_eq!(a.keyword(), k);
        assert!(!seen.contains(&a), "{k} SHALL name a distinct action");
        seen.push(a);
    }
}

#[test]
fn unknown_keywords_are_refused() {
    assert_eq!(Action::parse("teleport"), None);
    assert_eq!(Action::parse("Tap"), None);
    assert_eq!(Action::parse(""), None);
    assert_eq!(unknown_action_message("teleport"), "Unknown action: teleport");
}

#[test]
fn http_actions_carry_their_method() {
    assert_eq!(Action::GetHttp.http_method(), Some("GET"));
    assert_eq!(Action::PostHttp.http_method(), Some("POST"));
    assert_eq!(Action::PutHttp.http_method(), Some("PUT"));
    assert_eq!(Action::PatchHttp.http_method(), Some("PATCH"));
    assert_eq!(Action::DeleteHttp.http_method(), Some("DELETE"));
    assert_eq!(Action::Tap.http_method(), None);
}

#[test]
fn missing_param_messages_name_action_and_param() {
    assert_eq!(missing_param_message("open_link", "url"), "open_link action requires 'url' param");
}
