//! Resolving the app a lifecycle step names to a bundle id.
use vstd::prelude::*;
use crate::text::{append_str, str_eq, string_from_chars};

verus! {

/// One `[[flow.apps]]` entry: a friendly name and, normally, its bundle id.
pub struct AppConfig {
    pub name: String,
    pub bundle: Option<String>,
}

/// Why a step's app cannot be resolved.
#[derive(Debug, PartialEq, Eq)]
pub enum AppResolveError {
    /// The step names no app; holds the step's action.
    NoAppSpecified(String),
    /// The matching apps entry has no bundle id; holds the app's name.
    NoBundleId(String),
}

/// The index of the first apps entry named `name`, if any.
pub open spec fn first_app_named(apps: Seq<AppConfig>, name: Seq<char>, i: int) -> bool {
    &&& 0 <= i < apps.len()
    &&& apps[i].name@ == name
    &&& forall|j: int| 0 <= j < i ==> #[trigger] apps[j].name@ != name
}

/// The bundle id for a step of action `action` naming `app`: the bundle of
/// the first apps entry with that friendly name, else the name itself used
/// as a bundle id. An error when the step names no app, or when the
/// matching entry has no bundle id.
pub fn resolve_app_bundle<'a>(action: &str, app: Option<&'a str>, apps: &'a [AppConfig]) -> (r: Result<
    &'a str,
    AppResolveError,
>)
    ensures
        app is None ==> (r matches Err(AppResolveError::NoAppSpecified(a)) && a@ == action@),
        app matches Some(name) ==> {
            &&& (forall|j: int| 0 <= j < apps@.len() ==> #[trigger] apps@[j].name@ != name@) ==> (
            r matches Ok(b) && b@ == name@)
            &&& forall|i: int|
                first_app_named(apps@, name@, i) ==> match apps@[i].bundle {
                    Some(b) => r matches Ok(rb) && rb@ == b@,
                    None => r matches Err(AppResolveError::NoBundleId(n)) && n@ == name@,
                }
        },
{
    let name = match app {
        Some(n) => n,
        None => {
            return Err(AppResolveError::NoAppSpecified(string_from_chars(&crate::text::chars_of(action))));
        },
    };
    let mut i: usize = 0;
    while i < apps.len()
        invariant
            i <= apps@.len(),
            app == Some(name),
            forall|j: int| 0 <= j < i ==> #[trigger] apps@[j].name@ != name@,
        decreases apps@.len() - i,
    {
        if str_eq(apps[i].name.as_str(), name) {
            proof {
                assert forall|k: int| first_app_named(apps@, name@, k) implies k == i by {
                    if k < i {
                    } else if k > i {
                        assert(apps@[i as int].name@ != name@);
                    }
                }
            }
            assert(first_app_named(apps@, name@, i as int));
            let r = match &apps[i].bundle {
                Some(b) => Ok(b.as_str()),
                None => Err(AppResolveError::NoBundleId(apps[i].name.clone())),
            };
            return r;
        }
        i = i + 1;
    }
    Ok(name)
}

impl AppResolveError {
    /// The error's message.
    pub fn message(&self) -> (r: String)
        ensures
            self matches AppResolveError::NoAppSpecified(a) ==> r@ == "No app specified for "@ + a@
                + " action"@,
            self matches AppResolveError::NoBundleId(n) ==> r@ == "app '"@ + n@
                + "' has no bundle id — add one to [[flow.apps]] or to [[apps]] in golem.toml"@,
    {
        let mut out: Vec<char> = Vec::new();
        match self {
            AppResolveError::NoAppSpecified(a) => {
                append_str(&mut out, "No app specified for ");
                append_str(&mut out, a.as_str());
                append_str(&mut out, " action");
            },
            AppResolveError::NoBundleId(n) => {
                append_str(&mut out, "app '");
                append_str(&mut out, n.as_str());
                append_str(
                    &mut out,
                    "' has no bundle id — add one to [[flow.apps]] or to [[apps]] in golem.toml",
                );
            },
        }
        string_from_chars(&out)
    }
}

} // verus!
