//! The step actions a flow can use, by keyword.
use vstd::prelude::*;
use crate::text::{append_str, str_eq, string_from_chars};

verus! {

/// A step action. Each has exactly one keyword.
#[derive(Debug, Clone, Copy, PartialEq, Eq, Structural)]
pub enum Action {
    /// `tap`
    Tap,
    /// `double_tap`
    DoubleTap,
    /// `type`
    Type,
    /// `backspace`
    Backspace,
    /// `long_press`
    LongPress,
    /// `swipe`
    Swipe,
    /// `pinch`
    Pinch,
    /// `gesture`
    Gesture,
    /// `scroll`
    Scroll,
    /// `read`
    Read,
    /// `hide_keyboard`
    HideKeyboard,
    /// `assert_visible`
    AssertVisible,
    /// `assert_not_visible`
    AssertNotVisible,
    /// `assert_alert`
    AssertAlert,
    /// `accept_alert`
    AcceptAlert,
    /// `dismiss_alert`
    DismissAlert,
    /// `fail`
    Fail,
    /// `launch`
    Launch,
    /// `stop`
    Stop,
    /// `clear_data`
    ClearData,
    /// `rotate`
    Rotate,
    /// `dark_mode`
    DarkMode,
    /// `set_location`
    SetLocation,
    /// `press`
    Press,
    /// `grant_permission`
    GrantPermission,
    /// `revoke_permission`
    RevokePermission,
    /// `screenshot`
    Screenshot,
    /// `add_media`
    AddMedia,
    /// `open_link`
    OpenLink,
    /// `push_notification`
    PushNotification,
    /// `bash`
    Bash,
    /// `run`
    Run,
    /// `await_email`
    AwaitEmail,
    /// `create_inbox`
    CreateInbox,
    /// `load_fixture`
    LoadFixture,
    /// `get_http`
    GetHttp,
    /// `post_http`
    PostHttp,
    /// `put_http`
    PutHttp,
    /// `patch_http`
    PatchHttp,
    /// `delete_http`
    DeleteHttp,
}

/// The keyword of an action.
pub open spec fn spec_keyword(a: Action) -> Seq<char> {
    match a {
        Action::Tap => "tap"@,
        Action::DoubleTap => "double_tap"@,
        Action::Type => "type"@,
        Action::Backspace => "backspace"@,
        Action::LongPress => "long_press"@,
        Action::Swipe => "swipe"@,
        Action::Pinch => "pinch"@,
        Action::Gesture => "gesture"@,
        Action::Scroll => "scroll"@,
        Action::Read => "read"@,
        Action::HideKeyboard => "hide_keyboard"@,
        Action::AssertVisible => "assert_visible"@,
        Action::AssertNotVisible => "assert_not_visible"@,
        Action::AssertAlert => "assert_alert"@,
        Action::AcceptAlert => "accept_alert"@,
        Action::DismissAlert => "dismiss_alert"@,
        Action::Fail => "fail"@,
        Action::Launch => "launch"@,
        Action::Stop => "stop"@,
        Action::ClearData => "clear_data"@,
        Action::Rotate => "rotate"@,
        Action::DarkMode => "dark_mode"@,
        Action::SetLocation => "set_location"@,
        Action::Press => "press"@,
        Action::GrantPermission => "grant_permission"@,
        Action::RevokePermission => "revoke_permission"@,
        Action::Screenshot => "screenshot"@,
        Action::AddMedia => "add_media"@,
        Action::OpenLink => "open_link"@,
        Action::PushNotification => "push_notification"@,
        Action::Bash => "bash"@,
        Action::Run => "run"@,
        Action::AwaitEmail => "await_email"@,
        Action::CreateInbox => "create_inbox"@,
        Action::LoadFixture => "load_fixture"@,
        Action::GetHttp => "get_http"@,
        Action::PostHttp => "post_http"@,
        Action::PutHttp => "put_http"@,
        Action::PatchHttp => "patch_http"@,
        Action::DeleteHttp => "delete_http"@,
    }
}

/// The action a keyword names, if any.
pub open spec fn spec_action_of(s: Seq<char>) -> Option<Action> {
    if s == "tap"@ {
        Some(Action::Tap)
    } else if s == "double_tap"@ {
        Some(Action::DoubleTap)
    } else if s == "type"@ {
        Some(Action::Type)
    } else if s == "backspace"@ {
        Some(Action::Backspace)
    } else if s == "long_press"@ {
        Some(Action::LongPress)
    } else if s == "swipe"@ {
        Some(Action::Swipe)
    } else if s == "pinch"@ {
        Some(Action::Pinch)
    } else if s == "gesture"@ {
        Some(Action::Gesture)
    } else if s == "scroll"@ {
        Some(Action::Scroll)
    } else if s == "read"@ {
        Some(Action::Read)
    } else if s == "hide_keyboard"@ {
        Some(Action::HideKeyboard)
    } else if s == "assert_visible"@ {
        Some(Action::AssertVisible)
    } else if s == "assert_not_visible"@ {
        Some(Action::AssertNotVisible)
    } else if s == "assert_alert"@ {
        Some(Action::AssertAlert)
    } else if s == "accept_alert"@ {
        Some(Action::AcceptAlert)
    } else if s == "dismiss_alert"@ {
        Some(Action::DismissAlert)
    } else if s == "fail"@ {
        Some(Action::Fail)
    } else if s == "launch"@ {
        Some(Action::Launch)
    } else if s == "stop"@ {
        Some(Action::Stop)
    } else if s == "clear_data"@ {
        Some(Action::ClearData)
    } else if s == "rotate"@ {
        Some(Action::Rotate)
    } else if s == "dark_mode"@ {
        Some(Action::DarkMode)
    } else if s == "set_location"@ {
        Some(Action::SetLocation)
    } else if s == "press"@ {
        Some(Action::Press)
    } else if s == "grant_permission"@ {
        Some(Action::GrantPermission)
    } else if s == "revoke_permission"@ {
        Some(Action::RevokePermission)
    } else if s == "screenshot"@ {
        Some(Action::Screenshot)
    } else if s == "add_media"@ {
        Some(Action::AddMedia)
    } else if s == "open_link"@ {
        Some(Action::OpenLink)
    } else if s == "push_notification"@ {
        Some(Action::PushNotification)
    } else if s == "bash"@ {
        Some(Action::Bash)
    } else if s == "run"@ {
        Some(Action::Run)
    } else if s == "await_email"@ {
        Some(Action::AwaitEmail)
    } else if s == "create_inbox"@ {
        Some(Action::CreateInbox)
    } else if s == "load_fixture"@ {
        Some(Action::LoadFixture)
    } else if s == "get_http"@ {
        Some(Action::GetHttp)
    } else if s == "post_http"@ {
        Some(Action::PostHttp)
    } else if s == "put_http"@ {
        Some(Action::PutHttp)
    } else if s == "patch_http"@ {
        Some(Action::PatchHttp)
    } else if s == "delete_http"@ {
        Some(Action::DeleteHttp)
    } else {
        None
    }
}

impl Action {
    /// The action a step's keyword names; `None` for an unknown keyword.
    pub fn parse(keyword: &str) -> (r: Option<Action>)
        ensures
            r == spec_action_of(keyword@),
    {
        if str_eq(keyword, "tap") {
            Some(Action::Tap)
        } else if str_eq(keyword, "double_tap") {
            Some(Action::DoubleTap)
        } else if str_eq(keyword, "type") {
            Some(Action::Type)
        } else if str_eq(keyword, "backspace") {
            Some(Action::Backspace)
        } else if str_eq(keyword, "long_press") {
            Some(Action::LongPress)
        } else if str_eq(keyword, "swipe") {
            Some(Action::Swipe)
        } else if str_eq(keyword, "pinch") {
            Some(Action::Pinch)
        } else if str_eq(keyword, "gesture") {
            Some(Action::Gesture)
        } else if str_eq(keyword, "scroll") {
            Some(Action::Scroll)
        } else if str_eq(keyword, "read") {
            Some(Action::Read)
        } else if str_eq(keyword, "hide_keyboard") {
            Some(Action::HideKeyboard)
        } else if str_eq(keyword, "assert_visible") {
            Some(Action::AssertVisible)
        } else if str_eq(keyword, "assert_not_visible") {
            Some(Action::AssertNotVisible)
        } else if str_eq(keyword, "assert_alert") {
            Some(Action::AssertAlert)
        } else if str_eq(keyword, "accept_alert") {
            Some(Action::AcceptAlert)
        } else if str_eq(keyword, "dismiss_alert") {
            Some(Action::DismissAlert)
        } else if str_eq(keyword, "fail") {
            Some(Action::Fail)
        } else if str_eq(keyword, "launch") {
            Some(Action::Launch)
        } else if str_eq(keyword, "stop") {
            Some(Action::Stop)
        } else if str_eq(keyword, "clear_data") {
            Some(Action::ClearData)
        } else if str_eq(keyword, "rotate") {
            Some(Action::Rotate)
        } else if str_eq(keyword, "dark_mode") {
            Some(Action::DarkMode)
        } else if str_eq(keyword, "set_location") {
            Some(Action::SetLocation)
        } else if str_eq(keyword, "press") {
            Some(Action::Press)
        } else if str_eq(keyword, "grant_permission") {
            Some(Action::GrantPermission)
        } else if str_eq(keyword, "revoke_permission") {
            Some(Action::RevokePermission)
        } else if str_eq(keyword, "screenshot") {
            Some(Action::Screenshot)
        } else if str_eq(keyword, "add_media") {
            Some(Action::AddMedia)
        } else if str_eq(keyword, "open_link") {
            Some(Action::OpenLink)
        } else if str_eq(keyword, "push_notification") {
            Some(Action::PushNotification)
        } else if str_eq(keyword, "bash") {
            Some(Action::Bash)
        } else if str_eq(keyword, "run") {
            Some(Action::Run)
        } else if str_eq(keyword, "await_email") {
            Some(Action::AwaitEmail)
        } else if str_eq(keyword, "create_inbox") {
            Some(Action::CreateInbox)
        } else if str_eq(keyword, "load_fixture") {
            Some(Action::LoadFixture)
        } else if str_eq(keyword, "get_http") {
            Some(Action::GetHttp)
        } else if str_eq(keyword, "post_http") {
            Some(Action::PostHttp)
        } else if str_eq(keyword, "put_http") {
            Some(Action::PutHttp)
        } else if str_eq(keyword, "patch_http") {
            Some(Action::PatchHttp)
        } else if str_eq(keyword, "delete_http") {
            Some(Action::DeleteHttp)
        } else {
            None
        }
    }

    /// The action's keyword.
    pub fn keyword(self) -> (r: &'static str)
        ensures
            r@ == spec_keyword(self),
    {
        match self {
            Action::Tap => "tap",
            Action::DoubleTap => "double_tap",
            Action::Type => "type",
            Action::Backspace => "backspace",
            Action::LongPress => "long_press",
            Action::Swipe => "swipe",
            Action::Pinch => "pinch",
            Action::Gesture => "gesture",
            Action::Scroll => "scroll",
            Action::Read => "read",
            Action::HideKeyboard => "hide_keyboard",
            Action::AssertVisible => "assert_visible",
            Action::AssertNotVisible => "assert_not_visible",
            Action::AssertAlert => "assert_alert",
            Action::AcceptAlert => "accept_alert",
            Action::DismissAlert => "dismiss_alert",
            Action::Fail => "fail",
            Action::Launch => "launch",
            Action::Stop => "stop",
            Action::ClearData => "clear_data",
            Action::Rotate => "rotate",
            Action::DarkMode => "dark_mode",
            Action::SetLocation => "set_location",
            Action::Press => "press",
            Action::GrantPermission => "grant_permission",
            Action::RevokePermission => "revoke_permission",
            Action::Screenshot => "screenshot",
            Action::AddMedia => "add_media",
            Action::OpenLink => "open_link",
            Action::PushNotification => "push_notification",
            Action::Bash => "bash",
            Action::Run => "run",
            Action::AwaitEmail => "await_email",
            Action::CreateInbox => "create_inbox",
            Action::LoadFixture => "load_fixture",
            Action::GetHttp => "get_http",
            Action::PostHttp => "post_http",
            Action::PutHttp => "put_http",
            Action::PatchHttp => "patch_http",
            Action::DeleteHttp => "delete_http",
        }
    }

    /// The HTTP method of an HTTP action (`get_http` … `delete_http`).
    pub fn http_method(self) -> (r: Option<&'static str>)
        ensures
            self == Action::GetHttp ==> (r matches Some(m) && m@ == "GET"@),
            self == Action::PostHttp ==> (r matches Some(m) && m@ == "POST"@),
            self == Action::PutHttp ==> (r matches Some(m) && m@ == "PUT"@),
            self == Action::PatchHttp ==> (r matches Some(m) && m@ == "PATCH"@),
            self == Action::DeleteHttp ==> (r matches Some(m) && m@ == "DELETE"@),
            !(self == Action::GetHttp || self == Action::PostHttp || self == Action::PutHttp || self
                == Action::PatchHttp || self == Action::DeleteHttp) ==> r is None,
    {
        match self {
            Action::GetHttp => Some("GET"),
            Action::PostHttp => Some("POST"),
            Action::PutHttp => Some("PUT"),
            Action::PatchHttp => Some("PATCH"),
            Action::DeleteHttp => Some("DELETE"),
            _ => None,
        }
    }
}

/// `Unknown action: {keyword}`.
pub fn unknown_action_message(keyword: &str) -> (r: String)
    ensures
        r@ == "Unknown action: "@ + keyword@,
{
    let mut out: Vec<char> = Vec::new();
    append_str(&mut out, "Unknown action: ");
    append_str(&mut out, keyword);
    string_from_chars(&out)
}

/// `{action} action requires '{param}' param`: the failure of a step
/// missing a required parameter.
pub fn missing_param_message(action: &str, param: &str) -> (r: String)
    ensures
        r@ == action@ + " action requires '"@ + param@ + "' param"@,
{
    let mut out: Vec<char> = Vec::new();
    append_str(&mut out, action);
    append_str(&mut out, " action requires '");
    append_str(&mut out, param);
    append_str(&mut out, "' param");
    string_from_chars(&out)
}

/// Every action's keyword parses back to that action: no two actions share
/// a keyword.
pub proof fn lemma_keyword_round_trip(a: Action)
    ensures
        spec_action_of(spec_keyword(a)) == Some(a),
{
    reveal_strlit("tap");
    reveal_strlit("double_tap");
    reveal_strlit("type");
    reveal_strlit("backspace");
    reveal_strlit("long_press");
    reveal_strlit("swipe");
    reveal_strlit("pinch");
    reveal_strlit("gesture");
    reveal_strlit("scroll");
    reveal_strlit("read");
    reveal_strlit("hide_keyboard");
    reveal_strlit("assert_visible");
    reveal_strlit("assert_not_visible");
    reveal_strlit("assert_alert");
    reveal_strlit("accept_alert");
    reveal_strlit("dismiss_alert");
    reveal_strlit("fail");
    reveal_strlit("launch");
    reveal_strlit("stop");
    reveal_strlit("clear_data");
    reveal_strlit("rotate");
    reveal_strlit("dark_mode");
    reveal_strlit("set_location");
    reveal_strlit("press");
    reveal_strlit("grant_permission");
    reveal_strlit("revoke_permission");
    reveal_strlit("screenshot");
    reveal_strlit("add_media");
    reveal_strlit("open_link");
    reveal_strlit("push_notification");
    reveal_strlit("bash");
    reveal_strlit("run");
    reveal_strlit("await_email");
    reveal_strlit("create_inbox");
    reveal_strlit("load_fixture");
    reveal_strlit("get_http");
    reveal_strlit("post_http");
    reveal_strlit("put_http");
    reveal_strlit("patch_http");
    reveal_strlit("delete_http");
    assert("tap"@.len() == 3);
    assert("double_tap"@.len() == 10);
    assert("type"@.len() == 4);
    assert("backspace"@.len() == 9);
    assert("long_press"@.len() == 10);
    assert("swipe"@.len() == 5);
    assert("pinch"@.len() == 5);
    assert("gesture"@.len() == 7);
    assert("scroll"@.len() == 6);
    assert("read"@.len() == 4);
    assert("hide_keyboard"@.len() == 13);
    assert("assert_visible"@.len() == 14);
    assert("assert_not_visible"@.len() == 18);
    assert("assert_alert"@.len() == 12);
    assert("accept_alert"@.len() == 12);
    assert("dismiss_alert"@.len() == 13);
    assert("fail"@.len() == 4);
    assert("launch"@.len() == 6);
    assert("stop"@.len() == 4);
    assert("clear_data"@.len() == 10);
    assert("rotate"@.len() == 6);
    assert("dark_mode"@.len() == 9);
    assert("set_location"@.len() == 12);
    assert("press"@.len() == 5);
    assert("grant_permission"@.len() == 16);
    assert("revoke_permission"@.len() == 17);
    assert("screenshot"@.len() == 10);
    assert("add_media"@.len() == 9);
    assert("open_link"@.len() == 9);
    assert("push_notification"@.len() == 17);
    assert("bash"@.len() == 4);
    assert("run"@.len() == 3);
    assert("await_email"@.len() == 11);
    assert("create_inbox"@.len() == 12);
    assert("load_fixture"@.len() == 12);
    assert("get_http"@.len() == 8);
    assert("post_http"@.len() == 9);
    assert("put_http"@.len() == 8);
    assert("patch_http"@.len() == 10);
    assert("delete_http"@.len() == 11);
    match a {
        Action::Tap => {
        },
        Action::DoubleTap => {
        },
        Action::Type => {
        },
        Action::Backspace => {
        },
        Action::LongPress => {
            assert("long_press"@[0] != "double_tap"@[0]);
        },
        Action::Swipe => {
        },
        Action::Pinch => {
            assert("pinch"@[0] != "swipe"@[0]);
        },
        Action::Gesture => {
        },
        Action::Scroll => {
        },
        Action::Read => {
            assert("read"@[0] != "type"@[0]);
        },
        Action::HideKeyboard => {
        },
        Action::AssertVisible => {
        },
        Action::AssertNotVisible => {
        },
        Action::AssertAlert => {
        },
        Action::AcceptAlert => {
            assert("accept_alert"@[1] != "assert_alert"@[1]);
        },
        Action::DismissAlert => {
            assert("dismiss_alert"@[0] != "hide_keyboard"@[0]);
        },
        Action::Fail => {
            assert("fail"@[0] != "type"@[0]);
            assert("fail"@[0] != "read"@[0]);
        },
        Action::Launch => {
            assert("launch"@[0] != "scroll"@[0]);
        },
        Action::Stop => {
            assert("stop"@[0] != "type"@[0]);
            assert("stop"@[0] != "read"@[0]);
            assert("stop"@[0] != "fail"@[0]);
        },
        Action::ClearData => {
            assert("clear_data"@[0] != "double_tap"@[0]);
            assert("clear_data"@[0] != "long_press"@[0]);
        },
        Action::Rotate => {
            assert("rotate"@[0] != "scroll"@[0]);
            assert("rotate"@[0] != "launch"@[0]);
        },
        Action::DarkMode => {
            assert("dark_mode"@[0] != "backspace"@[0]);
        },
        Action::SetLocation => {
            assert("set_location"@[0] != "assert_alert"@[0]);
            assert("set_location"@[0] != "accept_alert"@[0]);
        },
        Action::Press => {
            assert("press"@[0] != "swipe"@[0]);
            assert("press"@[1] != "pinch"@[1]);
        },
        Action::GrantPermission => {
        },
        Action::RevokePermission => {
        },
        Action::Screenshot => {
            assert("screenshot"@[0] != "double_tap"@[0]);
            assert("screenshot"@[0] != "long_press"@[0]);
            assert("screenshot"@[0] != "clear_data"@[0]);
        },
        Action::AddMedia => {
            assert("add_media"@[0] != "backspace"@[0]);
            assert("add_media"@[0] != "dark_mode"@[0]);
        },
        Action::OpenLink => {
            assert("open_link"@[0] != "backspace"@[0]);
            assert("open_link"@[0] != "dark_mode"@[0]);
            assert("open_link"@[0] != "add_media"@[0]);
        },
        Action::PushNotification => {
            assert("push_notification"@[0] != "revoke_permission"@[0]);
        },
        Action::Bash => {
            assert("bash"@[0] != "type"@[0]);
            assert("bash"@[0] != "read"@[0]);
            assert("bash"@[0] != "fail"@[0]);
            assert("bash"@[0] != "stop"@[0]);
        },
        Action::Run => {
            assert("run"@[0] != "tap"@[0]);
        },
        Action::AwaitEmail => {
        },
        Action::CreateInbox => {
            assert("create_inbox"@[0] != "assert_alert"@[0]);
            assert("create_inbox"@[0] != "accept_alert"@[0]);
            assert("create_inbox"@[0] != "set_location"@[0]);
        },
        Action::LoadFixture => {
            assert("load_fixture"@[0] != "assert_alert"@[0]);
            assert("load_fixture"@[0] != "accept_alert"@[0]);
            assert("load_fixture"@[0] != "set_location"@[0]);
            assert("load_fixture"@[0] != "create_inbox"@[0]);
        },
        Action::GetHttp => {
        },
        Action::PostHttp => {
            assert("post_http"@[0] != "backspace"@[0]);
            assert("post_http"@[0] != "dark_mode"@[0]);
            assert("post_http"@[0] != "add_media"@[0]);
            assert("post_http"@[0] != "open_link"@[0]);
        },
        Action::PutHttp => {
            assert("put_http"@[0] != "get_http"@[0]);
        },
        Action::PatchHttp => {
            assert("patch_http"@[0] != "double_tap"@[0]);
            assert("patch_http"@[0] != "long_press"@[0]);
            assert("patch_http"@[0] != "clear_data"@[0]);
            assert("patch_http"@[0] != "screenshot"@[0]);
        },
        Action::DeleteHttp => {
            assert("delete_http"@[0] != "await_email"@[0]);
        },
    }
}

/// Only keywords parse, each to the action it is the keyword of.
pub proof fn lemma_parse_gives_keyword(s: Seq<char>)
    ensures
        spec_action_of(s) matches Some(a) ==> spec_keyword(a) == s,
{
}


/// Each keyword names its own action: `tap` parses to a tap, `assert_visible`
/// to the positive visibility assertion and `assert_not_visible` to the
/// negative one, `get_http` to a GET request, and so on for every keyword.
pub proof fn lemma_keywords_name_their_actions()
    ensures
        spec_action_of("tap"@) == Some(Action::Tap),
        spec_action_of("double_tap"@) == Some(Action::DoubleTap),
        spec_action_of("type"@) == Some(Action::Type),
        spec_action_of("backspace"@) == Some(Action::Backspace),
        spec_action_of("long_press"@) == Some(Action::LongPress),
        spec_action_of("swipe"@) == Some(Action::Swipe),
        spec_action_of("pinch"@) == Some(Action::Pinch),
        spec_action_of("gesture"@) == Some(Action::Gesture),
        spec_action_of("scroll"@) == Some(Action::Scroll),
        spec_action_of("read"@) == Some(Action::Read),
        spec_action_of("hide_keyboard"@) == Some(Action::HideKeyboard),
        spec_action_of("assert_visible"@) == Some(Action::AssertVisible),
        spec_action_of("assert_not_visible"@) == Some(Action::AssertNotVisible),
        spec_action_of("assert_alert"@) == Some(Action::AssertAlert),
        spec_action_of("accept_alert"@) == Some(Action::AcceptAlert),
        spec_action_of("dismiss_alert"@) == Some(Action::DismissAlert),
        spec_action_of("fail"@) == Some(Action::Fail),
        spec_action_of("launch"@) == Some(Action::Launch),
        spec_action_of("stop"@) == Some(Action::Stop),
        spec_action_of("clear_data"@) == Some(Action::ClearData),
        spec_action_of("rotate"@) == Some(Action::Rotate),
        spec_action_of("dark_mode"@) == Some(Action::DarkMode),
        spec_action_of("set_location"@) == Some(Action::SetLocation),
        spec_action_of("press"@) == Some(Action::Press),
        spec_action_of("grant_permission"@) == Some(Action::GrantPermission),
        spec_action_of("revoke_permission"@) == Some(Action::RevokePermission),
        spec_action_of("screenshot"@) == Some(Action::Screenshot),
        spec_action_of("add_media"@) == Some(Action::AddMedia),
        spec_action_of("open_link"@) == Some(Action::OpenLink),
        spec_action_of("push_notification"@) == Some(Action::PushNotification),
        spec_action_of("bash"@) == Some(Action::Bash),
        spec_action_of("run"@) == Some(Action::Run),
        spec_action_of("await_email"@) == Some(Action::AwaitEmail),
        spec_action_of("create_inbox"@) == Some(Action::CreateInbox),
        spec_action_of("load_fixture"@) == Some(Action::LoadFixture),
        spec_action_of("get_http"@) == Some(Action::GetHttp),
        spec_action_of("post_http"@) == Some(Action::PostHttp),
        spec_action_of("put_http"@) == Some(Action::PutHttp),
        spec_action_of("patch_http"@) == Some(Action::PatchHttp),
        spec_action_of("delete_http"@) == Some(Action::DeleteHttp),
{
    lemma_keyword_round_trip(Action::Tap);
    lemma_keyword_round_trip(Action::DoubleTap);
    lemma_keyword_round_trip(Action::Type);
    lemma_keyword_round_trip(Action::Backspace);
    lemma_keyword_round_trip(Action::LongPress);
    lemma_keyword_round_trip(Action::Swipe);
    lemma_keyword_round_trip(Action::Pinch);
    lemma_keyword_round_trip(Action::Gesture);
    lemma_keyword_round_trip(Action::Scroll);
    lemma_keyword_round_trip(Action::Read);
    lemma_keyword_round_trip(Action::HideKeyboard);
    lemma_keyword_round_trip(Action::AssertVisible);
    lemma_keyword_round_trip(Action::AssertNotVisible);
    lemma_keyword_round_trip(Action::AssertAlert);
    lemma_keyword_round_trip(Action::AcceptAlert);
    lemma_keyword_round_trip(Action::DismissAlert);
    lemma_keyword_round_trip(Action::Fail);
    lemma_keyword_round_trip(Action::Launch);
    lemma_keyword_round_trip(Action::Stop);
    lemma_keyword_round_trip(Action::ClearData);
    lemma_keyword_round_trip(Action::Rotate);
    lemma_keyword_round_trip(Action::DarkMode);
    lemma_keyword_round_trip(Action::SetLocation);
    lemma_keyword_round_trip(Action::Press);
    lemma_keyword_round_trip(Action::GrantPermission);
    lemma_keyword_round_trip(Action::RevokePermission);
    lemma_keyword_round_trip(Action::Screenshot);
    lemma_keyword_round_trip(Action::AddMedia);
    lemma_keyword_round_trip(Action::OpenLink);
    lemma_keyword_round_trip(Action::PushNotification);
    lemma_keyword_round_trip(Action::Bash);
    lemma_keyword_round_trip(Action::Run);
    lemma_keyword_round_trip(Action::AwaitEmail);
    lemma_keyword_round_trip(Action::CreateInbox);
    lemma_keyword_round_trip(Action::LoadFixture);
    lemma_keyword_round_trip(Action::GetHttp);
    lemma_keyword_round_trip(Action::PostHttp);
    lemma_keyword_round_trip(Action::PutHttp);
    lemma_keyword_round_trip(Action::PatchHttp);
    lemma_keyword_round_trip(Action::DeleteHttp);
}

} // verus!
