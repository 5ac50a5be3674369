use golem_runner::apps::{resolve_app_bundle, AppConfig, AppResolveError};

fn app_config(name: &str, bundle: Option<&str>) -> AppConfig {
    AppConfig { name: name.to_string(), bundle: bundle.map(|b| b.to_string()) }
}

#[test]
fn resolve_app_bundle_resolves_friendly_name_to_bundle() {
    let apps = vec![app_config("app", Some("com.example.real"))];
    let resolved = resolve_app_bundle("launch", Some("app"), &apps).expect("friendly name SHALL resolve");
    assert_eq!(resolved, "com.example.real", "friendly name SHALL resolve to the configured bundle id");
}

#[test]
fn resolve_app_bundle_errors_when_matched_app_has_no_bundle() {
    let apps = vec![app_config("myFriendlyApp", None)];
    let err = resolve_app_bundle("launch", Some("myFriendlyApp"), &apps).expect_err("missing bundle SHALL error");
    let msg = err.message();
    assert!(
        msg.contains("has no bundle id") && msg.contains("'myFriendlyApp'"),
        "error SHALL name the offending app missing a bundle id, got: {msg}"
    );
}

#[test]
fn resolve_app_bundle_falls_back_to_direct_bundle_id() {
    let apps = vec![app_config("other", Some("com.example.other"))];
    let resolved =
        resolve_app_bundle("launch", Some("direct.bundle.id"), &apps).expect("unmatched value SHALL pass through");
    assert_eq!(resolved, "direct.bundle.id", "an unmatched app value SHALL be used verbatim as the bundle id");
}

#[test]
fn resolve_app_bundle_uses_first_matching_entry() {
    let apps = vec![app_config("app", Some("com.first")), app_config("app", Some("com.second"))];
    let resolved = resolve_app_bundle("launch", Some("app"), &apps).expect("duplicate names SHALL resolve");
    assert_eq!(resolved, "com.first", "the first matching apps entry SHALL win");
}

#[test]
fn resolve_app_bundle_error_names_action() {
    let err = resolve_app_bundle("clear_data", None, &[]).expect_err("missing app SHALL error");
    let msg = err.message();
    assert!(
        msg.contains("No app specified") && msg.contains("clear_data"),
        "error SHALL name the action with no app, got: {msg}"
    );
    assert_eq!(err, AppResolveError::NoAppSpecified("clear_data".to_string()));
}
