//! Decisions of the steps that reach outside the device: HTTP requests,
//! host scripts and commands, explicit failures, e-mail inboxes and alerts.
use vstd::prelude::*;
use crate::text::{
    append_chars, append_str, chars_of, contains_lit, contains_seq, push_decimal, spec_decimal,
    spec_trim, str_eq, string_from_chars, trim_chars,
};
use crate::capture::spec_join;
use crate::data_driven::{entry_views, spec_from_pairs, spec_lookup, spec_set, DataRow};
use crate::element::{opt_view, Bounds};
use crate::branch::{parse_u16, spec_parse_u16};

verus! {

// ── HTTP ─────────────────────────────────────────────────────────────

/// The methods an HTTP step may use.
pub open spec fn spec_supported_http_method(m: Seq<char>) -> bool {
    m == "GET"@ || m == "POST"@ || m == "PUT"@ || m == "PATCH"@ || m == "DELETE"@
}

/// Whether an HTTP step may use `method` (`GET`, `POST`, `PUT`, `PATCH` or
/// `DELETE`, exactly); others are refused before any request is built.
pub fn supported_http_method(method: &str) -> (r: bool)
    ensures
        r == spec_supported_http_method(method@),
{
    str_eq(method, "GET") || str_eq(method, "POST") || str_eq(method, "PUT") || str_eq(method, "PATCH")
        || str_eq(method, "DELETE")
}

/// The HTTP methods an HTTP step may use are exactly `GET`, `POST`, `PUT`,
/// `PATCH` and `DELETE`, in capitals: a lowercase method or an empty one is
/// refused.
pub proof fn lemma_http_methods()
    ensures
        spec_supported_http_method("GET"@),
        spec_supported_http_method("POST"@),
        spec_supported_http_method("PUT"@),
        spec_supported_http_method("PATCH"@),
        spec_supported_http_method("DELETE"@),
        !spec_supported_http_method("get"@),
        !spec_supported_http_method(Seq::<char>::empty()),
        forall|m: Seq<char>| #[trigger] spec_supported_http_method(m) ==> 3 <= m.len() <= 6,
{
    reveal_strlit("GET");
    reveal_strlit("POST");
    reveal_strlit("PUT");
    reveal_strlit("PATCH");
    reveal_strlit("DELETE");
    reveal_strlit("get");
    assert("GET"@[0] != "get"@[0]);
    assert("get"@.len() == 3 && "POST"@.len() == 4 && "PATCH"@.len() == 5 && "DELETE"@.len() == 6);
    assert("get"@[0] != "PUT"@[0]);
    assert("GET"@.len() == 3 && "PUT"@.len() == 3);
    assert(Seq::<char>::empty() != "GET"@ && Seq::<char>::empty() != "PUT"@);
}

/// The failure of an HTTP step whose response was not a success.
pub open spec fn spec_http_failure(method: Seq<char>, url: Seq<char>, status: u16, body: Seq<char>) -> Seq<
    char,
> {
    "HTTP "@ + method + " "@ + url + " returned status "@ + spec_decimal(status as nat) + ": "@ + body
}

/// `HTTP {method} {url} returned status {status}: {body}`.
pub fn http_failure_message(method: &str, url: &str, status: u16, body: &str) -> (r: String)
    ensures
        r@ == spec_http_failure(method@, url@, status, body@),
{
    let mut out: Vec<char> = Vec::new();
    append_str(&mut out, "HTTP ");
    append_str(&mut out, method);
    append_str(&mut out, " ");
    append_str(&mut out, url);
    append_str(&mut out, " returned status ");
    push_decimal(&mut out, status as u64);
    append_str(&mut out, ": ");
    append_str(&mut out, body);
    string_from_chars(&out)
}

// ── Host scripts and commands ────────────────────────────────────────

/// Why a script path is refused.
#[derive(Debug, PartialEq, Eq)]
pub enum ScriptPathError {
    /// The path contains `..`.
    PathTraversal,
}

impl ScriptPathError {
    /// The error's message.
    pub fn message(&self) -> (r: &'static str)
        ensures
            r@ == "run action: path traversal ('..') is not allowed in script path"@,
    {
        "run action: path traversal ('..') is not allowed in script path"
    }
}

/// `s` without its leading `/` characters.
pub open spec fn trim_leading_slashes(s: Seq<char>) -> Seq<char>
    decreases s.len(),
{
    if s.len() > 0 && s[0] == '/' {
        trim_leading_slashes(s.drop_first())
    } else {
        s
    }
}

/// Where a script of the `run` step lives: a leading `/` makes it relative
/// to the project root, otherwise it is relative to the flow's directory.
pub open spec fn spec_script_path(script: Seq<char>, project_root: Seq<char>, flow_dir: Seq<char>) -> Seq<
    char,
> {
    if script.len() > 0 && script[0] == '/' {
        spec_join(project_root, trim_leading_slashes(script))
    } else {
        spec_join(flow_dir, script)
    }
}

/// Scripts resolve where the step says: a script written `/name` (or with
/// more leading slashes) lives in the project root, with one `/` between
/// root and name; any other script lives in the flow's directory.
pub proof fn lemma_script_locations(script: Seq<char>, name: Seq<char>, root: Seq<char>, flow_dir: Seq<char>)
    requires
        root.len() > 0 && root.last() != '/',
        flow_dir.len() > 0 && flow_dir.last() != '/',
        name.len() == 0 || name[0] != '/',
    ensures
        script.len() > 0 && script[0] != '/' ==> spec_script_path(script, root, flow_dir) == flow_dir + seq!['/']
            + script,
        spec_script_path(seq!['/'] + name, root, flow_dir) == root + seq!['/'] + name,
        spec_script_path(seq!['/', '/'] + name, root, flow_dir) == root + seq!['/'] + name,
{
    let s1 = seq!['/'] + name;
    let s2 = seq!['/', '/'] + name;
    assert(s1.drop_first() =~= name);
    assert(s2.drop_first() =~= s1);
    assert(s1[0] == '/');
    assert(s2[0] == '/');
    assert(trim_leading_slashes(name) == name);
    assert(trim_leading_slashes(s1) == name);
    assert(trim_leading_slashes(s2) == name);
}

fn without_leading_slashes(s: &Vec<char>) -> (r: Vec<char>)
    ensures
        r@ == trim_leading_slashes(s@),
{
    let mut i: usize = 0;
    assert(s@.skip(0) =~= s@);
    while i < s.len() && s[i] == '/'
        invariant
            i <= s@.len(),
            trim_leading_slashes(s@) == trim_leading_slashes(s@.skip(i as int)),
        decreases s@.len() - i,
    {
        assert(s@.skip(i as int).drop_first() =~= s@.skip(i + 1));
        i = i + 1;
    }
    let mut r: Vec<char> = Vec::new();
    let mut j: usize = i;
    while j < s.len()
        invariant
            i <= j <= s@.len(),
            r@ == s@.subrange(i as int, j as int),
        decreases s@.len() - j,
    {
        r.push(s[j]);
        j = j + 1;
        assert(r@ =~= s@.subrange(i as int, j as int));
    }
    assert(s@.subrange(i as int, s@.len() as int) =~= s@.skip(i as int));
    r
}

fn join_chars(base: &str, comp: &Vec<char>) -> (r: Vec<char>)
    ensures
        r@ == spec_join(base@, comp@),
{
    let mut p = chars_of(base);
    if p.len() == 0 {
    } else if p[p.len() - 1] == '/' {
    } else {
        p.push('/');
    }
    append_chars(&mut p, comp);
    assert(p@ =~= spec_join(base@, comp@));
    p
}

/// The path of the script a `run` step executes. Refused when it contains
/// `..`; a leading `/` resolves against the project root, anything else
/// against the flow's directory.
pub fn resolve_script_path(script: &str, project_root: &str, flow_dir: &str) -> (r: Result<
    String,
    ScriptPathError,
>)
    ensures
        contains_seq(script@, ".."@) ==> r == Err::<String, ScriptPathError>(ScriptPathError::PathTraversal),
        !contains_seq(script@, ".."@) ==> (r matches Ok(p) && p@ == spec_script_path(
            script@,
            project_root@,
            flow_dir@,
        )),
{
    let s = chars_of(script);
    if contains_lit(&s, "..") {
        return Err(ScriptPathError::PathTraversal);
    }
    let p = if s.len() > 0 && s[0] == '/' {
        let rel = without_leading_slashes(&s);
        join_chars(project_root, &rel)
    } else {
        join_chars(flow_dir, &s)
    };
    Ok(string_from_chars(&p))
}

/// A signed integer in decimal.
pub open spec fn spec_signed_decimal(i: int) -> Seq<char> {
    if i < 0 {
        seq!['-'] + spec_decimal((-i) as nat)
    } else {
        spec_decimal(i as nat)
    }
}

fn push_signed_decimal(out: &mut Vec<char>, i: i32)
    ensures
        final(out)@ == old(out)@ + spec_signed_decimal(i as int),
{
    if i < 0 {
        out.push('-');
        let ghost mid = out@;
        push_decimal(out, (-(i as i64)) as u64);
        assert(out@ =~= old(out)@ + spec_signed_decimal(i as int));
    } else {
        push_decimal(out, i as u64);
    }
}

/// The failure of a host command or script (`what` names which) that
/// exited unsuccessfully: its exit code (-1 when it has none, as when a
/// signal ended it) and its trimmed error output.
pub open spec fn spec_exit_failure(what: Seq<char>, exit_code: Option<i32>, stderr: Seq<char>) -> Seq<char> {
    let code = match exit_code {
        Some(c) => c as int,
        None => -1,
    };
    what + " failed with exit code "@ + spec_signed_decimal(code) + ": "@ + spec_trim(stderr)
}

/// `{what} failed with exit code {code}: {stderr, trimmed}`.
pub fn exit_failure_message(what: &str, exit_code: Option<i32>, stderr: &str) -> (r: String)
    ensures
        r@ == spec_exit_failure(what@, exit_code, stderr@),
{
    let mut out: Vec<char> = Vec::new();
    append_str(&mut out, what);
    append_str(&mut out, " failed with exit code ");
    let code: i32 = match exit_code {
        Some(c) => c,
        None => -1,
    };
    push_signed_decimal(&mut out, code);
    append_str(&mut out, ": ");
    let err = chars_of(stderr);
    let trimmed = trim_chars(&err);
    append_chars(&mut out, &trimmed);
    string_from_chars(&out)
}

/// The record a `run` step saves: `stdout`, the script's trimmed output,
/// and `exit_code`, its exit code in decimal (-1 when it has none).
pub open spec fn spec_run_record(stdout: Seq<char>, exit_code: Option<i32>) -> Seq<(Seq<char>, Seq<char>)> {
    let code = match exit_code {
        Some(c) => c as int,
        None => -1,
    };
    seq![("stdout"@, spec_trim(stdout)), ("exit_code"@, spec_signed_decimal(code))]
}

/// The variables a `run` step saves under its `save_to` name.
pub fn run_record(stdout: &str, exit_code: Option<i32>) -> (r: DataRow)
    ensures
        r.entries() == spec_run_record(stdout@, exit_code),
        r.wf(),
{
    proof {
        reveal_strlit("stdout");
        reveal_strlit("exit_code");
        assert("stdout"@.len() != "exit_code"@.len());
    }
    let out = chars_of(stdout);
    let trimmed = trim_chars(&out);
    let code: i32 = match exit_code {
        Some(c) => c,
        None => -1,
    };
    let mut code_text: Vec<char> = Vec::new();
    push_signed_decimal(&mut code_text, code);
    assert(code_text@ =~= spec_signed_decimal(code as int));
    let mut row = DataRow::new();
    let ghost e0 = row.entries();
    row.insert("stdout".to_string(), string_from_chars(&trimmed));
    let ghost e1 = row.entries();
    proof { lemma_set_new_key(e0, "stdout"@, trimmed@); }
    row.insert("exit_code".to_string(), string_from_chars(&code_text));
    proof {
        lemma_set_new_key(e1, "exit_code"@, code_text@);
        assert(row.entries() =~= spec_run_record(stdout@, exit_code));
    }
    row
}

/// The reason an explicit `fail` step reports: its message, or a default.
pub fn fail_message<'a>(message: Option<&'a str>) -> (r: &'a str)
    ensures
        message matches Some(m) ==> r == m,
        message is None ==> r@ == "Flow failed (no message provided)"@,
{
    match message {
        Some(m) => m,
        None => "Flow failed (no message provided)",
    }
}

// ── E-mail inboxes ───────────────────────────────────────────────────

/// A provisioned test inbox.
#[derive(Debug)]
pub struct InboxAccount {
    pub user: String,
    pub pass: String,
    pub imap_host: String,
    pub imap_port: u16,
    pub smtp_host: String,
    pub smtp_port: u16,
}

/// The variables an inbox is saved as: `address` (the user), `user`,
/// `pass`, `imap_host`, `imap_port`, `smtp_host`, `smtp_port`, ports in
/// decimal.
pub open spec fn spec_inbox_entries(a: InboxAccount) -> Seq<(Seq<char>, Seq<char>)> {
    seq![
        ("address"@, a.user@),
        ("user"@, a.user@),
        ("pass"@, a.pass@),
        ("imap_host"@, a.imap_host@),
        ("imap_port"@, spec_decimal(a.imap_port as nat)),
        ("smtp_host"@, a.smtp_host@),
        ("smtp_port"@, spec_decimal(a.smtp_port as nat)),
    ]
}

proof fn lemma_inbox_keys_distinct()
    ensures
        "address"@ != "user"@,
        "address"@ != "pass"@,
        "address"@ != "imap_host"@,
        "address"@ != "imap_port"@,
        "address"@ != "smtp_host"@,
        "address"@ != "smtp_port"@,
        "user"@ != "pass"@,
        "user"@ != "imap_host"@,
        "user"@ != "imap_port"@,
        "user"@ != "smtp_host"@,
        "user"@ != "smtp_port"@,
        "pass"@ != "imap_host"@,
        "pass"@ != "imap_port"@,
        "pass"@ != "smtp_host"@,
        "pass"@ != "smtp_port"@,
        "imap_host"@ != "imap_port"@,
        "imap_host"@ != "smtp_host"@,
        "imap_host"@ != "smtp_port"@,
        "imap_port"@ != "smtp_host"@,
        "imap_port"@ != "smtp_port"@,
        "smtp_host"@ != "smtp_port"@,
{
    reveal_strlit("address");
    reveal_strlit("user");
    reveal_strlit("pass");
    reveal_strlit("imap_host");
    reveal_strlit("imap_port");
    reveal_strlit("smtp_host");
    reveal_strlit("smtp_port");
    assert("address"@.len() == 7);
    assert("user"@.len() == 4);
    assert("pass"@.len() == 4);
    assert("user"@[0] != "pass"@[0]);
    assert("imap_host"@[5] != "imap_port"@[5]);
    assert("smtp_host"@[5] != "smtp_port"@[5]);
    assert("imap_host"@[0] != "smtp_host"@[0]);
    assert("imap_host"@[0] != "smtp_port"@[0]);
    assert("imap_port"@[0] != "smtp_host"@[0]);
    assert("imap_port"@[0] != "smtp_port"@[0]);
}

proof fn lemma_set_new_key(e: Seq<(Seq<char>, Seq<char>)>, k: Seq<char>, v: Seq<char>)
    requires
        forall|i: int| 0 <= i < e.len() ==> #[trigger] e[i].0 != k,
    ensures
        spec_set(e, k, v) == e.push((k, v)),
{
}

/// The inbox saved as variables, so that an `await_email` step can read it.
pub fn inbox_object(account: &InboxAccount) -> (r: DataRow)
    ensures
        r.entries() == spec_inbox_entries(*account),
        r.wf(),
{
    proof {
        lemma_inbox_keys_distinct();
    }
    let mut row = DataRow::new();
    let mut imap_port: Vec<char> = Vec::new();
    push_decimal(&mut imap_port, account.imap_port as u64);
    let mut smtp_port: Vec<char> = Vec::new();
    push_decimal(&mut smtp_port, account.smtp_port as u64);
    let ghost e0 = row.entries();
    row.insert("address".to_string(), account.user.clone());
    let ghost e1 = row.entries();
    proof { lemma_set_new_key(e0, "address"@, account.user@); }
    row.insert("user".to_string(), account.user.clone());
    let ghost e2 = row.entries();
    proof { lemma_set_new_key(e1, "user"@, account.user@); }
    row.insert("pass".to_string(), account.pass.clone());
    let ghost e3 = row.entries();
    proof { lemma_set_new_key(e2, "pass"@, account.pass@); }
    row.insert("imap_host".to_string(), account.imap_host.clone());
    let ghost e4 = row.entries();
    proof { lemma_set_new_key(e3, "imap_host"@, account.imap_host@); }
    row.insert("imap_port".to_string(), string_from_chars(&imap_port));
    let ghost e5 = row.entries();
    proof { lemma_set_new_key(e4, "imap_port"@, imap_port@); }
    row.insert("smtp_host".to_string(), account.smtp_host.clone());
    let ghost e6 = row.entries();
    proof { lemma_set_new_key(e5, "smtp_host"@, account.smtp_host@); }
    row.insert("smtp_port".to_string(), string_from_chars(&smtp_port));
    proof {
        lemma_set_new_key(e6, "smtp_port"@, smtp_port@);
        assert(row.entries() =~= spec_inbox_entries(*account));
    }
    row
}

/// The inbox variables an `await_email` step reads.
#[derive(Debug, Clone, Copy, PartialEq, Eq, Structural)]
pub enum InboxField {
    /// The inbox variable itself.
    Inbox,
    ImapHost,
    ImapPort,
    User,
    Pass,
}

/// The connection details an `await_email` step polls with.
#[derive(Debug)]
pub struct InboxCredentials {
    pub imap_host: String,
    pub imap_port: u16,
    pub user: String,
    pub pass: String,
}

/// An inbox variable that is missing (or, for the port, not a `u16`), or the
/// inbox itself.
#[derive(Debug, PartialEq, Eq)]
pub struct InboxError {
    /// The inbox's variable name.
    pub inbox: String,
    /// The field at fault.
    pub field: InboxField,
}

/// The first inbox field, in the order `imap_host`, `imap_port`, `user`,
/// `pass`, that is missing or (the port) does not parse; `None` when all
/// are usable.
pub open spec fn spec_bad_inbox_field(e: Seq<(Seq<char>, Seq<char>)>) -> Option<InboxField> {
    if spec_lookup(e, "imap_host"@) is None {
        Some(InboxField::ImapHost)
    } else if spec_lookup(e, "imap_port"@) is None || spec_parse_u16(spec_lookup(e, "imap_port"@)->0) is None {
        Some(InboxField::ImapPort)
    } else if spec_lookup(e, "user"@) is None {
        Some(InboxField::User)
    } else if spec_lookup(e, "pass"@) is None {
        Some(InboxField::Pass)
    } else {
        None
    }
}

/// The connection details stored in the inbox variables `inbox` of the
/// variables `vars`; the first unusable field is an error.
pub fn inbox_credentials(inbox: &str, vars: &DataRow) -> (r: Result<InboxCredentials, InboxError>)
    ensures
        match r {
            Ok(c) => {
                &&& spec_bad_inbox_field(vars.entries()) is None
                &&& spec_lookup(vars.entries(), "imap_host"@) == Some(c.imap_host@)
                &&& spec_parse_u16(spec_lookup(vars.entries(), "imap_port"@)->0) == Some(c.imap_port)
                &&& spec_lookup(vars.entries(), "user"@) == Some(c.user@)
                &&& spec_lookup(vars.entries(), "pass"@) == Some(c.pass@)
            },
            Err(e) => e.inbox@ == inbox@ && spec_bad_inbox_field(vars.entries()) == Some(e.field),
        },
{
    let fail = |field: InboxField| -> (e: InboxError)
        ensures
            e.inbox@ == inbox@ && e.field == field,
    { InboxError { inbox: string_from_chars(&chars_of(inbox)), field } };
    let imap_host = match vars.get("imap_host") {
        Some(h) => h.clone(),
        None => {
            return Err(fail(InboxField::ImapHost));
        },
    };
    let imap_port = match vars.get("imap_port") {
        Some(p) => match parse_u16(p.as_str()) {
            Some(n) => n,
            None => {
                return Err(fail(InboxField::ImapPort));
            },
        },
        None => {
            return Err(fail(InboxField::ImapPort));
        },
    };
    let user = match vars.get("user") {
        Some(u) => u.clone(),
        None => {
            return Err(fail(InboxField::User));
        },
    };
    let pass = match vars.get("pass") {
        Some(p) => p.clone(),
        None => {
            return Err(fail(InboxField::Pass));
        },
    };
    Ok(InboxCredentials { imap_host, imap_port, user, pass })
}

/// The connection details of the inbox named `inbox`, given what the
/// variables hold under that name (`None` when nothing): a missing inbox is
/// an error, else as `inbox_credentials`.
pub fn await_email_credentials(inbox: &str, value: Option<&DataRow>) -> (r: Result<InboxCredentials, InboxError>)
    ensures
        value is None ==> (r matches Err(e) && e.inbox@ == inbox@ && e.field == InboxField::Inbox),
        value matches Some(v) ==> match r {
            Ok(c) => {
                &&& spec_bad_inbox_field(v.entries()) is None
                &&& spec_lookup(v.entries(), "imap_host"@) == Some(c.imap_host@)
                &&& spec_parse_u16(spec_lookup(v.entries(), "imap_port"@)->0) == Some(c.imap_port)
                &&& spec_lookup(v.entries(), "user"@) == Some(c.user@)
                &&& spec_lookup(v.entries(), "pass"@) == Some(c.pass@)
            },
            Err(e) => e.inbox@ == inbox@ && spec_bad_inbox_field(v.entries()) == Some(e.field),
        },
{
    match value {
        Some(v) => inbox_credentials(inbox, v),
        None => Err(InboxError { inbox: string_from_chars(&chars_of(inbox)), field: InboxField::Inbox }),
    }
}

impl InboxError {
    /// The error's message: `await_email: {inbox}.{field} not found`, and
    /// `… not found or invalid` for the port; for a missing inbox,
    /// `await_email: inbox '{inbox}' not found in variables`.
    pub fn message(&self) -> (r: String)
        ensures
            self.field == InboxField::Inbox ==> r@ == "await_email: inbox '"@ + self.inbox@
                + "' not found in variables"@,
            self.field != InboxField::Inbox ==> r@ == "await_email: "@ + self.inbox@ + match self.field {
                InboxField::Inbox => Seq::empty(),
                InboxField::ImapHost => ".imap_host not found"@,
                InboxField::ImapPort => ".imap_port not found or invalid"@,
                InboxField::User => ".user not found"@,
                InboxField::Pass => ".pass not found"@,
            },
    {
        let mut out: Vec<char> = Vec::new();
        if self.field == InboxField::Inbox {
            append_str(&mut out, "await_email: inbox '");
            append_str(&mut out, self.inbox.as_str());
            append_str(&mut out, "' not found in variables");
            return string_from_chars(&out);
        }
        append_str(&mut out, "await_email: ");
        append_str(&mut out, self.inbox.as_str());
        let tail = match self.field {
            InboxField::Inbox => "",
            InboxField::ImapHost => ".imap_host not found",
            InboxField::ImapPort => ".imap_port not found or invalid",
            InboxField::User => ".user not found",
            InboxField::Pass => ".pass not found",
        };
        append_str(&mut out, tail);
        string_from_chars(&out)
    }
}

/// An inbox saved by `create_inbox` is exactly what `await_email` reads:
/// its host, port, user and password come back unchanged.
pub proof fn lemma_inbox_object_feeds_await_email(a: InboxAccount)
    ensures
        spec_bad_inbox_field(spec_inbox_entries(a)) is None,
        spec_lookup(spec_inbox_entries(a), "imap_host"@) == Some(a.imap_host@),
        spec_parse_u16(spec_lookup(spec_inbox_entries(a), "imap_port"@)->0) == Some(a.imap_port),
        spec_lookup(spec_inbox_entries(a), "user"@) == Some(a.user@),
        spec_lookup(spec_inbox_entries(a), "pass"@) == Some(a.pass@),
{
    lemma_inbox_keys_distinct();
    let e = spec_inbox_entries(a);
    assert(crate::data_driven::first_key_at(e, "imap_host"@, 3));
    crate::data_driven::lemma_get_is_lookup(e, "imap_host"@, 3);
    assert(crate::data_driven::first_key_at(e, "imap_port"@, 4));
    crate::data_driven::lemma_get_is_lookup(e, "imap_port"@, 4);
    assert(crate::data_driven::first_key_at(e, "user"@, 1));
    crate::data_driven::lemma_get_is_lookup(e, "user"@, 1);
    assert(crate::data_driven::first_key_at(e, "pass"@, 2));
    crate::data_driven::lemma_get_is_lookup(e, "pass"@, 2);
    crate::branch::lemma_parse_u16_round_trip(a.imap_port);
}

// ── Extracting fields from an e-mail body ────────────────────────────

/// What the `regex` crate makes of `pattern` searched for in `text`: `None`
/// when the pattern does not compile; else `None` inside when nothing
/// matches, or the texts of capture group 1 and of the whole match (group
/// 0) of the leftmost-first match.
pub uninterp spec fn regex_captures(pattern: Seq<char>, text: Seq<char>) -> Option<
    Option<(Option<Seq<char>>, Option<Seq<char>>)>,
>;

/// Compiles `pattern` with `regex::Regex::new` and searches `text` with
/// `captures`, handing back the texts of groups 1 and 0 (`get(1)`,
/// `get(0)`, `as_str`), or the compile error's message. Stated beyond the
/// name, as the crate documents them: group 0, the overall match, is
/// present in every match, and a group's text is a piece of `text`. What
/// the error message says is not stated.
#[verifier::external_body]
fn regex_search(pattern: &str, text: &str) -> (r: Result<Option<(Option<String>, Option<String>)>, String>)
    ensures
        r is Err <==> regex_captures(pattern@, text@) is None,
        r matches Ok(c) ==> regex_captures(pattern@, text@) == Some(
            match c {
                Some(g) => Some((opt_view(g.0), opt_view(g.1))),
                None => None,
            },
        ),
        r matches Ok(Some(g)) ==> g.1 is Some,
        r matches Ok(Some(g)) ==> (g.0 matches Some(t) ==> contains_seq(text@, t@)),
        r matches Ok(Some(g)) ==> (g.1 matches Some(t) ==> contains_seq(text@, t@)),
{
    let re = match regex::Regex::new(pattern) {
        Ok(re) => re,
        Err(e) => return Err(e.to_string()),
    };
    let caps = match re.captures(text) {
        Some(caps) => caps,
        None => return Ok(None),
    };
    let g1 = caps.get(1).map(|m| m.as_str().to_string());
    let g0 = caps.get(0).map(|m| m.as_str().to_string());
    Ok(Some((g1, g0)))
}

/// The captured text: group 1 when it took part in the match, else the
/// whole match.
pub open spec fn capture_text(c: (Option<Seq<char>>, Option<Seq<char>>)) -> Seq<char> {
    match c.0 {
        Some(g) => g,
        None => match c.1 {
            Some(g) => g,
            None => Seq::empty(),
        },
    }
}

/// The fields extracted from `body` by the `(name, pattern)` pairs `ps`, in
/// order: one `(name, captured text)` per pattern that matches. `None` when
/// some pattern does not compile.
pub open spec fn spec_extract(ps: Seq<(Seq<char>, Seq<char>)>, body: Seq<char>) -> Option<
    Seq<(Seq<char>, Seq<char>)>,
>
    decreases ps.len(),
{
    if ps.len() == 0 {
        Some(Seq::empty())
    } else {
        match spec_extract(ps.drop_last(), body) {
            None => None,
            Some(acc) => match regex_captures(ps.last().1, body) {
                None => None,
                Some(None) => Some(acc),
                Some(Some(c)) => Some(acc.push((ps.last().0, capture_text(c)))),
            },
        }
    }
}

proof fn lemma_extract_none_extends(ps: Seq<(Seq<char>, Seq<char>)>, body: Seq<char>, k: int)
    requires
        0 <= k <= ps.len(),
        spec_extract(ps.take(k), body) is None,
    ensures
        spec_extract(ps, body) is None,
    decreases ps.len() - k,
{
    if k == ps.len() {
        assert(ps.take(k) =~= ps);
    } else {
        let t = ps.take(k + 1);
        assert(t.drop_last() =~= ps.take(k));
        lemma_extract_none_extends(ps, body, k + 1);
    }
}

/// A pattern of an `await_email` step's `extract` table that does not
/// compile.
#[derive(Debug, PartialEq, Eq)]
pub struct InvalidPattern {
    /// The field the pattern was for.
    pub key: String,
    /// The regex crate's message.
    pub reason: String,
}

impl InvalidPattern {
    /// `await_email: invalid regex for '{key}': {reason}`.
    pub fn message(&self) -> (r: String)
        ensures
            r@ == "await_email: invalid regex for '"@ + self.key@ + "': "@ + self.reason@,
    {
        let mut out: Vec<char> = Vec::new();
        append_str(&mut out, "await_email: invalid regex for '");
        append_str(&mut out, self.key.as_str());
        append_str(&mut out, "': ");
        append_str(&mut out, self.reason.as_str());
        string_from_chars(&out)
    }
}

/// Applies each `(name, pattern)` of an `await_email` step's `extract`
/// table to the e-mail body, in order: a matching pattern yields its
/// captured text (group 1, else the whole match) under its name, a pattern
/// that does not match yields nothing, and the first pattern that does not
/// compile is an error naming its field.
pub fn extract_fields(patterns: &Vec<(String, String)>, body: &str) -> (r: Result<
    Vec<(String, String)>,
    InvalidPattern,
>)
    ensures
        r is Ok <==> spec_extract(entry_views(patterns@), body@) is Some,
        r matches Ok(v) ==> spec_extract(entry_views(patterns@), body@) == Some(entry_views(v@)),
        r matches Err(e) ==> exists|i: int|
            0 <= i < patterns@.len() && #[trigger] patterns@[i].0@ == e.key@ && regex_captures(
                patterns@[i].1@,
                body@,
            ) is None && spec_extract(entry_views(patterns@).take(i), body@) is Some,
{
    let ghost ps = entry_views(patterns@);
    let mut out: Vec<(String, String)> = Vec::new();
    let mut i: usize = 0;
    assert(ps.take(0) =~= Seq::<(Seq<char>, Seq<char>)>::empty());
    while i < patterns.len()
        invariant
            i <= patterns@.len(),
            ps == entry_views(patterns@),
            spec_extract(ps.take(i as int), body@) == Some(entry_views(out@)),
        decreases patterns@.len() - i,
    {
        let ghost t = ps.take(i + 1);
        assert(t.drop_last() =~= ps.take(i as int));
        assert(t.last() == (patterns@[i as int].0@, patterns@[i as int].1@));
        match regex_search(patterns[i].1.as_str(), body) {
            Err(reason) => {
                let key = patterns[i].0.clone();
                assert(patterns@[i as int].0@ == key@);
                proof {
                    assert(spec_extract(t, body@) is None);
                    lemma_extract_none_extends(ps, body@, i + 1);
                }
                return Err(InvalidPattern { key, reason });
            },
            Ok(None) => {},
            Ok(Some((g1, g0))) => {
                let text = match g1 {
                    Some(g) => g,
                    None => match g0 {
                        Some(g) => g,
                        None => String::new(),
                    },
                };
                let ghost before = out@;
                out.push((patterns[i].0.clone(), text));
                assert(entry_views(out@) =~= entry_views(before).push(
                    (patterns@[i as int].0@, capture_text((opt_view(g1), opt_view(g0)))),
                ));
            },
        }
        i = i + 1;
    }
    assert(ps.take(patterns@.len() as int) =~= ps);
    Ok(out)
}

// ── Alerts ───────────────────────────────────────────────────────────

/// The fixed fields of the record an `await_email` step saves: `body`,
/// `subject`, `from`, `to` and `date`, in that order.
pub open spec fn spec_email_fields(
    body: Seq<char>,
    subject: Seq<char>,
    from: Seq<char>,
    to: Seq<char>,
    date: Seq<char>,
) -> Seq<(Seq<char>, Seq<char>)> {
    seq![("body"@, body), ("subject"@, subject), ("from"@, from), ("to"@, to), ("date"@, date)]
}

/// The variables an `await_email` step saves under its `save_to` name: the
/// e-mail's body, subject, sender, recipient and date, then the extracted
/// fields, a field named like an earlier entry replacing its value.
pub fn email_record(
    body: &str,
    subject: &str,
    from: &str,
    to: &str,
    date: &str,
    extracted: &Vec<(String, String)>,
) -> (r: DataRow)
    ensures
        r.entries() == spec_from_pairs(spec_email_fields(body@, subject@, from@, to@, date@) + entry_views(extracted@)),
        r.wf(),
{
    let mut pairs: Vec<(String, String)> = Vec::new();
    pairs.push(("body".to_string(), body.to_string()));
    pairs.push(("subject".to_string(), subject.to_string()));
    pairs.push(("from".to_string(), from.to_string()));
    pairs.push(("to".to_string(), to.to_string()));
    pairs.push(("date".to_string(), date.to_string()));
    assert(entry_views(pairs@) =~= spec_email_fields(body@, subject@, from@, to@, date@));
    let ghost head = entry_views(pairs@);
    let mut i: usize = 0;
    while i < extracted.len()
        invariant
            i <= extracted@.len(),
            entry_views(pairs@) == head + entry_views(extracted@).take(i as int),
        decreases extracted@.len() - i,
    {
        let k = extracted[i].0.clone();
        let v = extracted[i].1.clone();
        let ghost before = pairs@;
        pairs.push((k, v));
        proof {
            assert(entry_views(extracted@)[i as int] == (extracted@[i as int].0@, extracted@[i as int].1@));
            assert(entry_views(pairs@) =~= entry_views(before).push((extracted@[i as int].0@, extracted@[i as int].1@)));
        }
        i = i + 1;
        assert(entry_views(pairs@) =~= head + entry_views(extracted@).take(i as int));
    }
    assert(entry_views(extracted@).take(extracted@.len() as int) =~= entry_views(extracted@));
    DataRow::from_pairs(pairs)
}

/// What to do next while accepting or dismissing an alert.
#[derive(Debug, PartialEq, Eq)]
pub enum AlertAction {
    /// Tap this point, then wait for the alert to go.
    Tap(i32, i32),
    /// The alert has no buttons: the step fails.
    NoButtons,
    /// No alert yet: nudge the app so a pending system dialog is handled,
    /// then look again.
    PokeThenRetry,
    /// No alert yet: look again.
    Retry,
}

/// The centre of a rectangle (rounding toward its origin).
pub open spec fn centre_of(b: Bounds) -> (int, int) {
    (b.x + crate::interaction::tdiv(b.width as int, 2), b.y + crate::interaction::tdiv(b.height as int, 2))
}

/// The next action of an accept (`accept`) or dismiss step, given the
/// buttons of the alert on screen (`None` when there is no alert) and
/// whether the app was already poked: accepting taps the last button (the
/// positive one), dismissing the first; an alert without buttons fails;
/// with no alert, accepting pokes once, and otherwise both look again.
pub open spec fn spec_alert_next(accept: bool, poked: bool, buttons: Option<Seq<Bounds>>) -> AlertAction {
    match buttons {
        Some(bs) => if bs.len() == 0 {
            AlertAction::NoButtons
        } else {
            let b = if accept {
                bs.last()
            } else {
                bs[0]
            };
            AlertAction::Tap(centre_of(b).0 as i32, centre_of(b).1 as i32)
        },
        None => if accept && !poked {
            AlertAction::PokeThenRetry
        } else {
            AlertAction::Retry
        },
    }
}

/// The next action while accepting or dismissing an alert.
pub fn alert_next(accept: bool, poked: bool, buttons: Option<&[Bounds]>) -> (r: AlertAction)
    requires
        buttons matches Some(bs) ==> forall|i: int|
            0 <= i < bs@.len() ==> i32::MIN <= #[trigger] centre_of(bs@[i]).0 <= i32::MAX && i32::MIN
                <= centre_of(bs@[i]).1 <= i32::MAX,
    ensures
        r == spec_alert_next(
            accept,
            poked,
            match buttons {
                Some(bs) => Some(bs@),
                None => None,
            },
        ),
{
    match buttons {
        Some(bs) => {
            if bs.len() == 0 {
                AlertAction::NoButtons
            } else {
                let b = if accept { bs[bs.len() - 1] } else { bs[0] };
                let ghost k: int = if accept { bs@.len() - 1 } else { 0 };
                assert(b == bs@[k]);
                assert(i32::MIN <= centre_of(bs@[k]).0 <= i32::MAX);
                let x = b.x as i64 + crate::interaction::tdiv_exec(b.width as i64, 2);
                let y = b.y as i64 + crate::interaction::tdiv_exec(b.height as i64, 2);
                AlertAction::Tap(x as i32, y as i32)
            }
        },
        None => {
            if accept && !poked {
                AlertAction::PokeThenRetry
            } else {
                AlertAction::Retry
            }
        },
    }
}

/// Accepting an alert with buttons taps the centre of its last (positive)
/// button, however many buttons it has; dismissing taps the centre of the
/// first; an alert without buttons fails either way. With no alert,
/// accepting pokes the app once and then looks again, and dismissing only
/// looks again.
pub proof fn lemma_alert_button_choice(poked: bool, bs: Seq<Bounds>)
    ensures
        bs.len() >= 1 ==> spec_alert_next(true, poked, Some(bs)) == AlertAction::Tap(
            (bs[bs.len() - 1].x + crate::interaction::tdiv(bs[bs.len() - 1].width as int, 2)) as i32,
            (bs[bs.len() - 1].y + crate::interaction::tdiv(bs[bs.len() - 1].height as int, 2)) as i32,
        ),
        bs.len() >= 1 ==> spec_alert_next(false, poked, Some(bs)) == AlertAction::Tap(
            (bs[0].x + crate::interaction::tdiv(bs[0].width as int, 2)) as i32,
            (bs[0].y + crate::interaction::tdiv(bs[0].height as int, 2)) as i32,
        ),
        bs.len() == 0 ==> spec_alert_next(true, poked, Some(bs)) == AlertAction::NoButtons,
        bs.len() == 0 ==> spec_alert_next(false, poked, Some(bs)) == AlertAction::NoButtons,
        spec_alert_next(true, false, None) == AlertAction::PokeThenRetry,
        spec_alert_next(true, true, None) == AlertAction::Retry,
        spec_alert_next(false, poked, None) == AlertAction::Retry,
{
}

/// The failure of an alert step that found an alert without buttons.
pub fn no_buttons_message(accept: bool) -> (r: &'static str)
    ensures
        accept ==> r@ == "accept_alert failed: no buttons found in alert"@,
        !accept ==> r@ == "dismiss_alert failed: no buttons found in alert"@,
{
    if accept {
        "accept_alert failed: no buttons found in alert"
    } else {
        "dismiss_alert failed: no buttons found in alert"
    }
}

} // verus!
