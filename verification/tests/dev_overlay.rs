use golem_runner::dev_overlay::{dev_bundle_error, first_line, is_code_frame, is_dismiss, is_log_counter, is_reload, is_source_position};
use golem_runner::element::{Bounds, Element};

fn node(kind: &str, text: Option<&str>, children: Vec<Element>) -> Element {
    Element {
        element_type: kind.into(),
        text: text.map(str::to_string),
        accessibility_label: None,
        enabled: true,
        clickable: false,
        bounds: Bounds { x: 0, y: 0, width: 100, height: 100 },
        visible_bounds: None,
        children,
    }
}

/// An overlay in the shape a device actually produces (Expo 57 / RN 0.86,
/// Android emulator): the message in a ListView, the buttons in their own
/// row beside it, both under the overlay container. The nesting is
/// load-bearing — a flat fixture cannot tell `overlay_root` from the
/// button row.
fn redbox(title: &str) -> Element {
    node(
        "LinearLayout",
        None,
        vec![
            node(
                "ListView",
                None,
                vec![
                    node("TextView", Some(title), vec![]),
                    node("TextView", Some("loadJSBundleFromAssets"), vec![]),
                    node("TextView", Some("ReactInstance.kt:86"), vec![]),
                ],
            ),
            node("LinearLayout", None, vec![]),
            node(
                "LinearLayout",
                None,
                vec![
                    node("Button", Some("DISMISS\n(ESC)"), vec![]),
                    node("Button", Some("RELOAD\n(R,\u{a0}R)"), vec![]),
                ],
            ),
        ],
    )
}

#[test]
fn an_unreachable_bundler_is_a_dev_bundle_error() {
    let tree = redbox(
        "Unable to load script.\n\nMake sure you're running Metro or that your \
         bundle 'index.android.bundle' is packaged correctly for release.",
    );
    assert_eq!(
        dev_bundle_error(&tree).as_deref(),
        Some("Unable to load script."),
        "the title's first line SHALL be the reported message"
    );
}

#[test]
fn a_transform_error_is_a_dev_bundle_error() {
    let tree =
        redbox("SyntaxError: /p/App.tsx: Unexpected token (9:15)\n\n   7 | // a comment\n");
    assert_eq!(
        dev_bundle_error(&tree).as_deref(),
        Some("SyntaxError: /p/App.tsx: Unexpected token (9:15)"),
        "the code frame SHALL be dropped, the message kept"
    );
}

#[test]
fn a_runtime_throw_is_a_dev_bundle_error() {
    let tree = redbox("[runtime not ready]: Error: boom, stack:\nanonymous@92902:17");
    assert_eq!(
        dev_bundle_error(&tree).as_deref(),
        Some("[runtime not ready]: Error: boom, stack:")
    );
}

// -- JS LogBox ---------------------------------------------------

/// The inspector as a device renders it, in document order, taken from a
/// real `*_error_tree.json`: header, title, message, the Source section
/// with its code frame, the position, the call stack, then the controls.
/// `level` picks the title; `extra` appends anything a variant adds.
fn logbox(header: &str, title: &str, message: &str, controls: Vec<&str>) -> Element {
    let mut kids = vec![
        node("text", Some(header), vec![]),
        node("text", Some(title), vec![]),
        node("text", Some(message), vec![]),
        node("text", Some("Source"), vec![]),
        node(
            "text",
            Some("\u{200e}> 35 |  onPress={() => { throw new Error('boom'); }}"),
            vec![],
        ),
        node(
            "text",
            Some("\u{200e}     |                        ^"),
            vec![],
        ),
        node("other", Some("App.tsx (35:43)"), vec![]),
        node("text", Some("Call Stack"), vec![]),
        node("other", Some("Pressable.props.onPress"), vec![]),
        node("other", Some("App.tsx:35:43"), vec![]),
        node("other", Some("See 11 more frames"), vec![]),
    ];
    kids.extend(controls.into_iter().map(|c| node("other", Some(c), vec![])));
    node("other", None, vec![node("other", None, kids)])
}

fn fatal_logbox() -> Element {
    logbox(
        "Log 1 of 1",
        "Uncaught Error",
        "golem-deferred-boom",
        vec!["Dismiss", "Minimize", "Copy"],
    )
}

#[test]
fn a_fatal_logbox_reports_its_message_and_source_position() {
    // The position is what makes this better than the redbox path, which
    // has no file or line to report.
    assert_eq!(
        dev_bundle_error(&fatal_logbox()).as_deref(),
        Some("golem-deferred-boom at App.tsx (35:43)")
    );
}

#[test]
fn a_compile_failure_is_found_by_its_header_alone() {
    // A syntax-level LogBox renders no buttons at all — its footer is the
    // sentence below — so the header is the only thing identifying it.
    let tree = logbox(
        "Failed to compile",
        "Syntax Error",
        "App.tsx: Unexpected token (9:15)",
        vec!["This error cannot be dismissed."],
    );
    assert!(
        dev_bundle_error(&tree)
            .is_some_and(|m| m.starts_with("App.tsx: Unexpected token (9:15)")),
        "got {:?}",
        dev_bundle_error(&tree)
    );
}

#[test]
fn a_render_error_is_fatal_too() {
    let tree = logbox(
        "Log 1 of 1",
        "Render Error",
        "Objects are not valid as a React child",
        vec!["Dismiss", "Minimize", "Copy"],
    );
    assert!(dev_bundle_error(&tree).is_some());
}

#[test]
fn a_console_log_left_open_over_a_working_app_is_not_fatal() {
    // LogBox opens on warnings and console errors too, but the app under
    // them still works — a flow failing there is failing on its own
    // merits, and calling it a broken bundle would be a lie.
    for title in ["Console Warning", "Console Error"] {
        let tree = logbox(
            "Log 1 of 1",
            title,
            "something noisy",
            vec!["Dismiss", "Minimize", "Copy"],
        );
        assert_eq!(
            dev_bundle_error(&tree),
            None,
            "{title} SHALL NOT read as a broken app"
        );
    }
}

#[test]
fn a_minimised_logbox_badge_is_not_fatal() {
    // Observed on device: the badge sits over a fully working app. It
    // carries the message but none of the inspector's chrome.
    let tree = node(
        "other",
        None,
        vec![
            node("text", Some("Counter"), vec![]),
            node("text", Some("0"), vec![]),
            node("other", Some("+"), vec![]),
            node("other", Some("!, golem-deferred-boom"), vec![]),
        ],
    );
    assert_eq!(dev_bundle_error(&tree), None);
}

#[test]
fn an_apps_own_dismiss_and_copy_buttons_are_not_a_logbox() {
    // Identified by header + title rather than the control trio precisely
    // so this can't trip it.
    let tree = node(
        "other",
        None,
        vec![
            node("text", Some("Share this receipt"), vec![]),
            node("other", Some("Copy"), vec![]),
            node("other", Some("Dismiss"), vec![]),
        ],
    );
    assert_eq!(dev_bundle_error(&tree), None);
}

#[test]
fn a_title_without_the_inspector_header_is_not_enough() {
    // An app that happens to render the words "Uncaught Error" is not a
    // LogBox; the header is what says an inspector is on screen.
    let tree = node(
        "other",
        None,
        vec![
            node("text", Some("Uncaught Error"), vec![]),
            node("text", Some("in our own error screen"), vec![]),
        ],
    );
    assert_eq!(dev_bundle_error(&tree), None);
}

#[test]
fn the_log_counter_is_recognised_only_in_its_real_shape() {
    assert!(is_log_counter("Log 1 of 1"));
    assert!(is_log_counter("Log 3 of 7"));
    assert!(!is_log_counter("Log in"));
    assert!(!is_log_counter("Log of 7"));
    assert!(!is_log_counter("Catalog 1 of 1"));
    assert!(!is_log_counter("Log one of two"));
}

#[test]
fn a_source_position_is_recognised_only_in_its_real_shape() {
    assert!(is_source_position("App.tsx (35:43)"));
    assert!(is_source_position("src/screens/Home.tsx (1:0)"));
    // A stack frame renders the position without parentheses.
    assert!(!is_source_position("App.tsx:35:43"));
    assert!(!is_source_position("Pressable.props.onPress"));
    assert!(!is_source_position("See 11 more frames"));
    assert!(!is_source_position("Vertical scroll bar, 2 pages"));
}

#[test]
fn an_app_rendering_normally_is_not() {
    let tree = node(
        "FrameLayout",
        None,
        vec![
            node("TextView", Some("Counter"), vec![]),
            node("TextView", Some("0"), vec![]),
            node("Button", Some("+"), vec![]),
        ],
    );
    assert_eq!(dev_bundle_error(&tree), None);
}

#[test]
fn a_non_fatal_logbox_notice_is_not() {
    // Observed on device: a stray-text warning renders a badge over an app
    // that is otherwise working. The bundle built; the run should carry on
    // failing (or passing) on its own merits.
    let tree = node(
        "FrameLayout",
        None,
        vec![
            node("TextView", Some("Counter"), vec![]),
            node("TextView", Some("0"), vec![]),
            node("TextView", Some("!"), vec![]),
            node(
                "TextView",
                Some("Text strings must be rendered within a <Text> component."),
                vec![],
            ),
        ],
    );
    assert_eq!(
        dev_bundle_error(&tree),
        None,
        "a LogBox notice over a working app SHALL NOT read as a broken bundle"
    );
}

#[test]
fn one_button_alone_is_not_enough() {
    // An app may legitimately have a reload control of its own; only the
    // pair, with RN's keyboard hints, identifies the overlay.
    let only_reload = node(
        "FrameLayout",
        None,
        vec![
            node("TextView", Some("Something went wrong"), vec![]),
            node("Button", Some("RELOAD\n(R,\u{a0}R)"), vec![]),
        ],
    );
    assert_eq!(dev_bundle_error(&only_reload), None);

    let plain_words = node(
        "FrameLayout",
        None,
        vec![
            node("Button", Some("Dismiss"), vec![]),
            node("Button", Some("Reload"), vec![]),
        ],
    );
    assert_eq!(
        dev_bundle_error(&plain_words),
        None,
        "an app's own Dismiss/Reload buttons SHALL NOT read as a redbox"
    );
}

#[test]
fn app_content_behind_the_overlay_does_not_supply_the_message() {
    // The overlay is mounted over the app, so the app's own text is still
    // in the tree and comes first in document order. Reporting "Counter"
    // as the bundle error would be worse than reporting nothing.
    let tree = node(
        "Root",
        None,
        vec![
            node("TextView", Some("Counter"), vec![]),
            node("TextView", Some("0"), vec![]),
            redbox("SyntaxError: /p/App.tsx: Unexpected token (9:15)"),
        ],
    );
    assert_eq!(
        dev_bundle_error(&tree).as_deref(),
        Some("SyntaxError: /p/App.tsx: Unexpected token (9:15)")
    );
}

#[test]
fn the_overlay_is_found_however_deeply_it_is_nested() {
    // The real tree wraps it in four containers before the overlay itself.
    let deep = node(
        "FrameLayout",
        None,
        vec![node(
            "LinearLayout",
            None,
            vec![node(
                "FrameLayout",
                None,
                vec![node("LinearLayout", None, vec![redbox("SyntaxError: x")])],
            )],
        )],
    );
    assert_eq!(dev_bundle_error(&deep).as_deref(), Some("SyntaxError: x"));
}

#[test]
fn overlay_button_texts_need_their_keyboard_hints() {
    assert!(is_dismiss("DISMISS\n(ESC)"));
    assert!(is_reload("RELOAD\n(R,\u{a0}R)"));
    assert!(!is_dismiss("Dismiss"));
    assert!(!is_reload("Reload"));
}

#[test]
fn first_line_keeps_text_before_the_first_break() {
    assert_eq!(first_line("Unable to load script.\n\nMake sure"), "Unable to load script.");
    assert_eq!(first_line("single"), "single");
}

#[test]
fn code_frame_lines_are_recognised() {
    assert!(is_code_frame("\u{200e}> 35 |  onPress={() => {}}"));
    assert!(!is_code_frame("App.tsx (35:43)"));
}
