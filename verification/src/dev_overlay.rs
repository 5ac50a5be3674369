//! Recognise a React Native error overlay in a captured tree, so a step that
//! failed against one is reported as a broken app rather than a missing
//! selector.
//!
//! React Native has two overlays: the native redbox (the JS bundle never
//! ran) and the JS LogBox (the app mounted, then threw). Both are matched on
//! their chrome rather than their message, because the message is the error
//! and changes every time while the chrome does not.
use vstd::prelude::*;
use crate::element::{candidates, char_views, collect_candidates, Element};
use crate::text::{
    contains_lit, starts_with_lit, all_ascii_digits, all_ascii_digits_exec, append_chars, append_str, chars_eq, chars_eq_str,
    chars_of, find_first_exec, find_from, find_last, find_last_exec, find_last_from, lemma_find_from,
    lemma_find_last_from, occurs_at, occurs_at_exec, slice_chars, spec_trim, starts_with,
    contains_seq, string_from_chars, trim_chars,
};

verus! {

// ── Text shapes ─────────────────────────────────────────────────────

/// A redbox "Dismiss" button: the trimmed text starts with `DISMISS` and
/// carries the `(ESC)` keyboard hint.
pub open spec fn spec_is_dismiss(text: Seq<char>) -> bool {
    let t = spec_trim(text);
    starts_with(t, "DISMISS"@) && contains_seq(t, "(ESC)"@)
}

/// A redbox "Reload" button: the trimmed text starts with `RELOAD` and
/// carries the `(R` keyboard hint.
pub open spec fn spec_is_reload(text: Seq<char>) -> bool {
    let t = spec_trim(text);
    starts_with(t, "RELOAD"@) && contains_seq(t, "(R"@)
}

/// `Log N of M`, with N and M non-empty runs of ASCII digits (after
/// trimming): the LogBox inspector's header.
pub open spec fn spec_is_log_counter(text: Seq<char>) -> bool {
    let t = spec_trim(text);
    starts_with(t, "Log "@) && {
        let rest = t.skip("Log "@.len() as int);
        let k = find_from(rest, " of "@, 0);
        k != -1 && {
            let n = rest.take(k);
            let total = rest.skip(k + " of "@.len());
            n.len() > 0 && total.len() > 0 && all_ascii_digits(n) && all_ascii_digits(total)
        }
    }
}

/// A LogBox code-frame line: it starts with U+200E (LEFT-TO-RIGHT MARK).
pub open spec fn spec_is_code_frame(text: Seq<char>) -> bool {
    text.len() > 0 && text[0] == '\u{200e}'
}

/// `File (LINE:COL)` — the trimmed text's last ` (` is followed by
/// `LINE:COL)`, LINE and COL non-empty runs of ASCII digits split at the
/// first `:`.
pub open spec fn spec_is_source_position(text: Seq<char>) -> bool {
    let t = spec_trim(text);
    let open = find_last(t, " ("@);
    open != -1 && {
        let after = t.skip(open + " ("@.len());
        after.len() > 0 && after.last() == ')' && {
            let inner = after.drop_last();
            let c = find_from(inner, ":"@, 0);
            c != -1 && {
                let line = inner.take(c);
                let col = inner.skip(c + ":"@.len());
                line.len() > 0 && col.len() > 0 && all_ascii_digits(line) && all_ascii_digits(col)
            }
        }
    }
}

/// The first non-empty line of `s` after trimming each line, or empty.
pub open spec fn spec_first_line(s: Seq<char>) -> Seq<char>
    decreases s.len(),
{
    let k = find_from(s, seq!['\n'], 0);
    let line = if k == -1 { s } else { s.take(k) };
    let t = spec_trim(line);
    if t.len() > 0 {
        t
    } else if k == -1 || k < 0 || k + 1 > s.len() {
        Seq::empty()
    } else {
        spec_first_line(s.skip(k + 1))
    }
}

/// The LogBox titles that mean the app itself is broken.
pub open spec fn spec_is_fatal_title(s: Seq<char>) -> bool {
    s == "Uncaught Error"@ || s == "Syntax Error"@ || s == "Render Error"@
}

/// LogBox chrome: section labels and controls, never the error.
pub open spec fn spec_is_chrome(s: Seq<char>) -> bool {
    ||| s == "Source"@
    ||| s == "Call Stack"@
    ||| s == "Dismiss"@
    ||| s == "Minimize"@
    ||| s == "Copy"@
    ||| s == "This error cannot be dismissed."@
}

/// What the overlay logic looks for in one text line.
#[derive(Clone, Copy, PartialEq, Eq, Structural)]
pub enum LineKind {
    /// A redbox Dismiss button.
    Dismiss,
    /// A redbox Reload button.
    Reload,
    /// Overlay content: neither button, not blank once trimmed.
    Content,
    /// A candidate for the redbox title: non-empty and neither button.
    Title,
    /// A fatal LogBox title, or the compile-failure header.
    FatalTitle,
    /// The LogBox inspector header (`Log N of M` or the compile-failure header).
    Header,
    /// The LogBox message: not chrome, not code frame, not header, not title.
    Message,
    /// A source position that is not part of a code frame.
    Position,
}

/// Whether `text` is of the given kind.
pub open spec fn spec_line_is(kind: LineKind, text: Seq<char>) -> bool {
    let s = spec_trim(text);
    match kind {
        LineKind::Dismiss => spec_is_dismiss(text),
        LineKind::Reload => spec_is_reload(text),
        LineKind::Content => !spec_is_dismiss(text) && !spec_is_reload(text) && s.len() > 0,
        LineKind::Title => text.len() > 0 && !spec_is_dismiss(text) && !spec_is_reload(text),
        LineKind::FatalTitle => spec_is_fatal_title(s) || s == "Failed to compile"@,
        LineKind::Header => spec_is_log_counter(text) || s == "Failed to compile"@,
        LineKind::Message => {
            &&& s.len() > 0
            &&& !spec_is_chrome(s)
            &&& !spec_is_code_frame(text)
            &&& !spec_is_log_counter(s)
            &&& !spec_is_fatal_title(s)
        },
        LineKind::Position => spec_is_source_position(text) && !spec_is_code_frame(text),
    }
}

/// The first position at or after `from` whose line is of the given kind,
/// or -1.
pub open spec fn first_of_kind(lines: Seq<Seq<char>>, kind: LineKind, from: int) -> int
    decreases lines.len() - from,
{
    if from < 0 || from >= lines.len() {
        -1
    } else if spec_line_is(kind, lines[from]) {
        from
    } else {
        first_of_kind(lines, kind, from + 1)
    }
}

// ── Tree shapes ─────────────────────────────────────────────────────

/// Whether a subtree holds a complete redbox: both buttons and some other
/// content.
pub open spec fn spec_is_overlay(n: Element) -> bool {
    let c = candidates(n);
    &&& first_of_kind(c, LineKind::Dismiss, 0) != -1
    &&& first_of_kind(c, LineKind::Reload, 0) != -1
    &&& first_of_kind(c, LineKind::Content, 0) != -1
}

/// The innermost node holding a whole redbox, searching children in
/// document order before settling on the node itself.
pub open spec fn spec_overlay_root(n: Element) -> Option<Element>
    decreases n,
{
    if !spec_is_overlay(n) {
        None
    } else {
        match spec_overlay_in(n.children@) {
            Some(x) => Some(x),
            None => Some(n),
        }
    }
}

/// The first overlay root found among sibling subtrees, in order.
pub open spec fn spec_overlay_in(s: Seq<Element>) -> Option<Element>
    decreases s,
{
    if s.len() == 0 {
        None
    } else {
        match spec_overlay_root(s[0]) {
            Some(x) => Some(x),
            None => spec_overlay_in(s.drop_first()),
        }
    }
}

/// The native redbox's message: the first line of the overlay's first
/// non-button text.
pub open spec fn spec_native_redbox(root: Element) -> Option<Seq<char>> {
    match spec_overlay_root(root) {
        None => None,
        Some(o) => {
            let c = candidates(o);
            let i = first_of_kind(c, LineKind::Title, 0);
            if i == -1 {
                None
            } else {
                Some(spec_first_line(c[i]))
            }
        },
    }
}

/// Appends `c` unless it is empty or repeats the last line.
pub open spec fn push_text(acc: Seq<Seq<char>>, c: Seq<char>) -> Seq<Seq<char>> {
    if c.len() > 0 && (acc.len() == 0 || acc.last() != c) {
        acc.push(c)
    } else {
        acc
    }
}

/// `push_text` over `cs` in order.
pub open spec fn push_texts(cs: Seq<Seq<char>>) -> Seq<Seq<char>>
    decreases cs.len(),
{
    if cs.len() == 0 {
        Seq::empty()
    } else {
        push_text(push_texts(cs.drop_last()), cs.last())
    }
}

/// Every non-empty text and accessibility label, in document order, without
/// immediate repeats.
pub open spec fn spec_all_texts(root: Element) -> Seq<Seq<char>> {
    push_texts(candidates(root))
}

/// The JS LogBox inspector's message when it is open on a fatal log: the
/// first line of the first message after the title, followed by
/// ` at {position}` when a source position follows the title.
pub open spec fn spec_js_logbox(root: Element) -> Option<Seq<char>> {
    let texts = spec_all_texts(root);
    let ti = first_of_kind(texts, LineKind::FatalTitle, 0);
    if ti == -1 {
        None
    } else if first_of_kind(texts, LineKind::Header, 0) == -1 {
        None
    } else {
        let mi = first_of_kind(texts, LineKind::Message, ti + 1);
        if mi == -1 {
            None
        } else {
            let message = spec_first_line(texts[mi]);
            let pi = first_of_kind(texts, LineKind::Position, ti);
            if pi == -1 {
                Some(message)
            } else {
                Some(message + " at "@ + spec_trim(texts[pi]))
            }
        }
    }
}

/// What the app shows instead of its UI, when that is an error overlay: the
/// native redbox first, else a fatal JS LogBox.
pub open spec fn spec_dev_bundle_error(root: Element) -> Option<Seq<char>> {
    match spec_native_redbox(root) {
        Some(m) => Some(m),
        None => spec_js_logbox(root),
    }
}

// ── Executable checks ───────────────────────────────────────────────


fn is_dismiss_chars(text: &Vec<char>) -> (r: bool)
    ensures
        r == spec_is_dismiss(text@),
{
    let t = trim_chars(text);
    starts_with_lit(&t, "DISMISS") && contains_lit(&t, "(ESC)")
}

fn is_reload_chars(text: &Vec<char>) -> (r: bool)
    ensures
        r == spec_is_reload(text@),
{
    let t = trim_chars(text);
    starts_with_lit(&t, "RELOAD") && contains_lit(&t, "(R")
}

fn is_log_counter_chars(text: &Vec<char>) -> (r: bool)
    ensures
        r == spec_is_log_counter(text@),
{
    let t = trim_chars(text);
    let pre = chars_of("Log ");
    if !occurs_at_exec(&t, &pre, 0) {
        return false;
    }
    let rest = slice_chars(&t, pre.len(), t.len());
    assert(rest@ =~= t@.skip("Log "@.len() as int));
    let sep = chars_of(" of ");
    match find_first_exec(&rest, &sep) {
        None => false,
        Some(k) => {
            proof {
                lemma_find_from(rest@, sep@, 0);
            }
            let n = slice_chars(&rest, 0, k);
            let total = slice_chars(&rest, k + sep.len(), rest.len());
            assert(n@ =~= rest@.take(k as int));
            assert(total@ =~= rest@.skip(k + sep@.len()));
            n.len() > 0 && total.len() > 0 && all_ascii_digits_exec(&n) && all_ascii_digits_exec(&total)
        },
    }
}

fn is_code_frame_chars(text: &Vec<char>) -> (r: bool)
    ensures
        r == spec_is_code_frame(text@),
{
    text.len() > 0 && text[0] == '\u{200e}'
}

fn is_source_position_chars(text: &Vec<char>) -> (r: bool)
    ensures
        r == spec_is_source_position(text@),
{
    let t = trim_chars(text);
    let open_pat = chars_of(" (");
    match find_last_exec(&t, &open_pat) {
        None => false,
        Some(open) => {
            proof {
                lemma_find_last_from(t@, open_pat@, t@.len() - open_pat@.len());
                assert(find_last(t@, open_pat@) == find_last_from(t@, open_pat@, t@.len() - open_pat@.len()));
                assert(occurs_at(t@, open_pat@, open as int));
                assert(open + open_pat@.len() <= t@.len());
            }
            let tl = t.len();
            let after = slice_chars(&t, open + open_pat.len(), tl);
            assert(after@ =~= t@.skip(open + open_pat@.len()));
            if after.len() == 0 || after[after.len() - 1] != ')' {
                return false;
            }
            let inner = slice_chars(&after, 0, after.len() - 1);
            assert(inner@ =~= after@.drop_last());
            let colon = chars_of(":");
            match find_first_exec(&inner, &colon) {
                None => false,
                Some(c) => {
                    proof {
                        lemma_find_from(inner@, colon@, 0);
                    }
                    let line = slice_chars(&inner, 0, c);
                    let col = slice_chars(&inner, c + colon.len(), inner.len());
                    assert(line@ =~= inner@.take(c as int));
                    assert(col@ =~= inner@.skip(c + colon@.len()));
                    line.len() > 0 && col.len() > 0 && all_ascii_digits_exec(&line)
                        && all_ascii_digits_exec(&col)
                },
            }
        },
    }
}

fn first_line_chars(s: &Vec<char>) -> (r: Vec<char>)
    ensures
        r@ == spec_first_line(s@),
    decreases s@.len(),
{
    let mut nl: Vec<char> = Vec::new();
    nl.push('\n');
    assert(nl@ =~= seq!['\n']);
    let k = find_first_exec(s, &nl);
    proof {
        lemma_find_from(s@, seq!['\n'], 0);
    }
    let line = match k {
        None => slice_chars(s, 0, s.len()),
        Some(k) => slice_chars(s, 0, k),
    };
    assert(s@.subrange(0, s@.len() as int) =~= s@);
    let t = trim_chars(&line);
    if t.len() > 0 {
        return t;
    }
    match k {
        None => Vec::new(),
        Some(k) => {
            if k >= s.len() {
                Vec::new()
            } else {
                let rest = slice_chars(s, k + 1, s.len());
                assert(rest@ =~= s@.skip(k + 1));
                first_line_chars(&rest)
            }
        },
    }
}

fn is_fatal_title_chars(s: &Vec<char>) -> (r: bool)
    ensures
        r == spec_is_fatal_title(s@),
{
    chars_eq_str(s, "Uncaught Error") || chars_eq_str(s, "Syntax Error") || chars_eq_str(s, "Render Error")
}

fn is_chrome_chars(s: &Vec<char>) -> (r: bool)
    ensures
        r == spec_is_chrome(s@),
{
    chars_eq_str(s, "Source") || chars_eq_str(s, "Call Stack") || chars_eq_str(s, "Dismiss")
        || chars_eq_str(s, "Minimize") || chars_eq_str(s, "Copy")
        || chars_eq_str(s, "This error cannot be dismissed.")
}

fn line_is(kind: LineKind, text: &Vec<char>) -> (r: bool)
    ensures
        r == spec_line_is(kind, text@),
{
    let s = trim_chars(text);
    match kind {
        LineKind::Dismiss => is_dismiss_chars(text),
        LineKind::Reload => is_reload_chars(text),
        LineKind::Content => !is_dismiss_chars(text) && !is_reload_chars(text) && s.len() > 0,
        LineKind::Title => text.len() > 0 && !is_dismiss_chars(text) && !is_reload_chars(text),
        LineKind::FatalTitle => is_fatal_title_chars(&s) || chars_eq_str(&s, "Failed to compile"),
        LineKind::Header => is_log_counter_chars(text) || chars_eq_str(&s, "Failed to compile"),
        LineKind::Message => s.len() > 0 && !is_chrome_chars(&s) && !is_code_frame_chars(text)
            && !is_log_counter_chars(&s) && !is_fatal_title_chars(&s),
        LineKind::Position => is_source_position_chars(text) && !is_code_frame_chars(text),
    }
}

fn first_of_kind_exec(lines: &Vec<Vec<char>>, kind: LineKind, from: usize) -> (r: Option<usize>)
    ensures
        match r {
            Some(i) => first_of_kind(char_views(lines@), kind, from as int) == i as int,
            None => first_of_kind(char_views(lines@), kind, from as int) == -1,
        },
{
    let ghost v = char_views(lines@);
    let mut i = from;
    while i < lines.len()
        invariant
            from <= i,
            first_of_kind(v, kind, from as int) == first_of_kind(v, kind, i as int),
            v == char_views(lines@),
        decreases lines@.len() - i,
    {
        assert(v[i as int] == lines@[i as int]@);
        if line_is(kind, &lines[i]) {
            return Some(i);
        }
        i = i + 1;
    }
    None
}

fn is_overlay(node: &Element) -> (r: bool)
    ensures
        r == spec_is_overlay(*node),
{
    let mut c: Vec<Vec<char>> = Vec::new();
    collect_candidates(node, &mut c);
    assert(char_views(c@) =~= candidates(*node));
    first_of_kind_exec(&c, LineKind::Dismiss, 0).is_some() && first_of_kind_exec(
        &c,
        LineKind::Reload,
        0,
    ).is_some() && first_of_kind_exec(&c, LineKind::Content, 0).is_some()
}

fn overlay_root(node: &Element) -> (r: Option<&Element>)
    ensures
        match r {
            Some(e) => spec_overlay_root(*node) == Some(*e),
            None => spec_overlay_root(*node) is None,
        },
    decreases node,
{
    if !is_overlay(node) {
        return None;
    }
    let mut i: usize = 0;
    assert(node.children@.skip(0) =~= node.children@);
    while i < node.children.len()
        invariant
            i <= node.children@.len(),
            spec_is_overlay(*node),
            spec_overlay_in(node.children@) == spec_overlay_in(node.children@.skip(i as int)),
        decreases node.children@.len() - i,
    {
        let ghost s = node.children@.skip(i as int);
        assert(s[0] == node.children@[i as int]);
        assert(s.drop_first() =~= node.children@.skip(i + 1));
        match overlay_root(&node.children[i]) {
            Some(inner) => {
                return Some(inner);
            },
            None => {},
        }
        i = i + 1;
    }
    assert(node.children@.skip(node.children@.len() as int) =~= Seq::<Element>::empty());
    Some(node)
}

fn native_redbox(root: &Element) -> (r: Option<Vec<char>>)
    ensures
        match r {
            Some(m) => spec_native_redbox(*root) == Some(m@),
            None => spec_native_redbox(*root) is None,
        },
{
    match overlay_root(root) {
        None => None,
        Some(o) => {
            let mut c: Vec<Vec<char>> = Vec::new();
            collect_candidates(o, &mut c);
            assert(char_views(c@) =~= candidates(*o));
            match first_of_kind_exec(&c, LineKind::Title, 0) {
                None => None,
                Some(i) => {
                    proof {
                        lemma_first_of_kind_in_range(char_views(c@), LineKind::Title, 0);
                    }
                    assert(char_views(c@)[i as int] == c@[i as int]@);
                    Some(first_line_chars(&c[i]))
                },
            }
        },
    }
}

fn all_texts(root: &Element) -> (r: Vec<Vec<char>>)
    ensures
        char_views(r@) == spec_all_texts(*root),
{
    let mut c: Vec<Vec<char>> = Vec::new();
    collect_candidates(root, &mut c);
    let ghost cv = char_views(c@);
    assert(cv =~= candidates(*root));
    let mut out: Vec<Vec<char>> = Vec::new();
    let mut i: usize = 0;
    assert(char_views(out@) =~= push_texts(cv.take(0)));
    while i < c.len()
        invariant
            i <= c@.len(),
            cv == char_views(c@),
            char_views(out@) == push_texts(cv.take(i as int)),
        decreases c@.len() - i,
    {
        let cand = slice_chars(&c[i], 0, c[i].len());
        assert(cand@ =~= cv[i as int]);
        let keep = cand.len() > 0 && (out.len() == 0 || !chars_eq(&out[out.len() - 1], &cand));
        proof {
            assert(cv.take(i + 1).drop_last() =~= cv.take(i as int));
            assert(cv.take(i + 1).last() == cv[i as int]);
            if out.len() > 0 {
                assert(char_views(out@).last() == out@[out@.len() - 1]@);
            }
        }
        let ghost before = out@;
        if keep {
            out.push(cand);
            assert(char_views(out@) =~= char_views(before).push(cv[i as int]));
        }
        i = i + 1;
    }
    assert(cv.take(c@.len() as int) =~= cv);
    out
}

fn js_logbox(root: &Element) -> (r: Option<Vec<char>>)
    ensures
        match r {
            Some(m) => spec_js_logbox(*root) == Some(m@),
            None => spec_js_logbox(*root) is None,
        },
{
    let texts = all_texts(root);
    let ghost tv = char_views(texts@);
    let ti = match first_of_kind_exec(&texts, LineKind::FatalTitle, 0) {
        None => {
            return None;
        },
        Some(ti) => ti,
    };
    if first_of_kind_exec(&texts, LineKind::Header, 0).is_none() {
        return None;
    }
    if ti >= texts.len() {
        return None;
    }
    let mi = match first_of_kind_exec(&texts, LineKind::Message, ti + 1) {
        None => {
            return None;
        },
        Some(mi) => mi,
    };
    proof {
        lemma_first_of_kind_in_range(tv, LineKind::Message, ti + 1);
    }
    assert(tv[mi as int] == texts@[mi as int]@);
    let message = first_line_chars(&texts[mi]);
    match first_of_kind_exec(&texts, LineKind::Position, ti) {
        None => Some(message),
        Some(pi) => {
            proof {
                lemma_first_of_kind_in_range(tv, LineKind::Position, ti as int);
            }
            assert(tv[pi as int] == texts@[pi as int]@);
            let mut out = message;
            append_str(&mut out, " at ");
            let p = trim_chars(&texts[pi]);
            append_chars(&mut out, &p);
            Some(out)
        },
    }
}

proof fn lemma_first_of_kind_in_range(lines: Seq<Seq<char>>, kind: LineKind, from: int)
    ensures
        first_of_kind(lines, kind, from) == -1 || (from <= first_of_kind(lines, kind, from) < lines.len()),
    decreases lines.len() - from,
{
    if from < 0 || from >= lines.len() {
    } else if spec_line_is(kind, lines[from]) {
    } else {
        lemma_first_of_kind_in_range(lines, kind, from + 1);
    }
}

// ── Public API ──────────────────────────────────────────────────────

/// What the app is showing instead of its UI, if that is an error overlay:
/// the native redbox's message, else a fatal JS LogBox's message (with its
/// source position when shown). `None` when the app renders normally —
/// including a minimised LogBox badge or one open on a console warning.
pub fn dev_bundle_error(root: &Element) -> (r: Option<String>)
    ensures
        match r {
            Some(m) => spec_dev_bundle_error(*root) == Some(m@),
            None => spec_dev_bundle_error(*root) is None,
        },
{
    match native_redbox(root) {
        Some(m) => Some(string_from_chars(&m)),
        None => match js_logbox(root) {
            Some(m) => Some(string_from_chars(&m)),
            None => None,
        },
    }
}

/// Whether `text` is the redbox's Dismiss button (`DISMISS` plus the
/// `(ESC)` hint).
pub fn is_dismiss(text: &str) -> (r: bool)
    ensures
        r == spec_is_dismiss(text@),
{
    is_dismiss_chars(&chars_of(text))
}

/// Whether `text` is the redbox's Reload button (`RELOAD` plus the `(R`
/// hint).
pub fn is_reload(text: &str) -> (r: bool)
    ensures
        r == spec_is_reload(text@),
{
    is_reload_chars(&chars_of(text))
}

/// Whether `text` is the LogBox inspector header `Log N of M`.
pub fn is_log_counter(text: &str) -> (r: bool)
    ensures
        r == spec_is_log_counter(text@),
{
    is_log_counter_chars(&chars_of(text))
}

/// Whether `text` is a LogBox code-frame line (starts with U+200E).
pub fn is_code_frame(text: &str) -> (r: bool)
    ensures
        r == spec_is_code_frame(text@),
{
    is_code_frame_chars(&chars_of(text))
}

/// Whether `text` is a LogBox source position such as `App.tsx (35:43)`.
pub fn is_source_position(text: &str) -> (r: bool)
    ensures
        r == spec_is_source_position(text@),
{
    is_source_position_chars(&chars_of(text))
}

/// The first non-empty line of an overlay title, trimmed — the message
/// without the stack trace that follows it.
pub fn first_line(title: &str) -> (r: String)
    ensures
        r@ == spec_first_line(title@),
{
    let l = first_line_chars(&chars_of(title));
    string_from_chars(&l)
}


/// Where `l` (a line without a newline) is followed by a newline and `rest`,
/// the first newline is the one right after `l`.
proof fn lemma_first_newline(l: Seq<char>, rest: Seq<char>)
    requires
        forall|j: int| 0 <= j < l.len() ==> l[j] != '\n',
    ensures
        find_from(l + seq!['\n'] + rest, seq!['\n'], 0) == l.len(),
        (l + seq!['\n'] + rest).take(l.len() as int) == l,
        (l + seq!['\n'] + rest).skip(l.len() as int + 1) == rest,
{
    let s = l + seq!['\n'] + rest;
    crate::text::lemma_find_from(s, seq!['\n'], 0);
    assert(s.subrange(l.len() as int, l.len() as int + 1) =~= seq!['\n']);
    assert(crate::text::occurs_at(s, seq!['\n'], l.len() as int));
    let k = find_from(s, seq!['\n'], 0);
    if k != l.len() {
        assert(k < l.len());
        assert(crate::text::occurs_at(s, seq!['\n'], k));
        assert(s.subrange(k, k + 1)[0] == s[k]);
        assert(s[k] == l[k]);
    }
    assert(s.take(l.len() as int) =~= l);
    assert(s.skip(l.len() as int + 1) =~= rest);
}

/// The overlay title's first line is the first line that is not blank,
/// trimmed: a text without a newline is just trimmed; a non-blank first
/// line is that line, trimmed, whatever follows; a blank first line is
/// skipped.
pub proof fn lemma_first_line_picks_first_nonblank(l: Seq<char>, rest: Seq<char>)
    requires
        forall|j: int| 0 <= j < l.len() ==> l[j] != '\n',
    ensures
        spec_first_line(l) == spec_trim(l),
        spec_trim(l).len() > 0 ==> spec_first_line(l + seq!['\n'] + rest) == spec_trim(l),
        spec_trim(l).len() == 0 ==> spec_first_line(l + seq!['\n'] + rest) == spec_first_line(rest),
{
    crate::text::lemma_find_from(l, seq!['\n'], 0);
    if find_from(l, seq!['\n'], 0) != -1 {
        let k = find_from(l, seq!['\n'], 0);
        assert(l.subrange(k, k + 1)[0] == l[k]);
    }
    lemma_first_newline(l, rest);
}

} // verus!
