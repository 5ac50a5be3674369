//! Branch conditions: which test a condition asks for, how variable tests
//! are judged, and the walk that picks the first matching condition.
use vstd::prelude::*;
use crate::text::{all_ascii_digits, chars_of, str_eq};

verus! {

/// One branch condition of a flow, as written: at most one of the screen or
/// variable tests is consulted (in this field order), and `goto` names the
/// block to jump to when it matches.
pub struct BranchCondition {
    pub if_visible: Option<String>,
    pub if_not_visible: Option<String>,
    pub if_var: Option<String>,
    pub equals: Option<String>,
    pub matches: Option<String>,
    pub gte: Option<i64>,
    pub goto: String,
}

/// The test a condition asks for.
pub enum ConditionTest {
    /// Some element's text matches the pattern.
    Visible(String),
    /// No element's text matches the pattern.
    NotVisible(String),
    /// The variable's string value equals the expected text.
    VarEquals { var: String, expected: String },
    /// The variable's string value matches the glob pattern.
    VarMatches { var: String, pattern: String },
    /// The variable's string value is an integer at least the threshold.
    VarAtLeast { var: String, threshold: i64 },
    /// A variable is named without a comparison: never matches.
    VarWithoutTest,
    /// No test at all: always matches.
    Always,
}

/// The character view of an optional string.
pub open spec fn ov(o: Option<String>) -> Option<Seq<char>> {
    crate::element::opt_view(o)
}

/// `t` is the test that `c` asks for: `if_visible`, else `if_not_visible`,
/// else `if_var` with `equals`, else `matches`, else `gte`; no field at all
/// means the default condition.
pub open spec fn is_test_of(c: BranchCondition, t: ConditionTest) -> bool {
    if c.if_visible is Some {
        t matches ConditionTest::Visible(p) && p@ == c.if_visible->0@
    } else if c.if_not_visible is Some {
        t matches ConditionTest::NotVisible(p) && p@ == c.if_not_visible->0@
    } else if c.if_var is Some {
        let v = c.if_var->0@;
        if c.equals is Some {
            t matches ConditionTest::VarEquals { var, expected } && var@ == v && expected@
                == c.equals->0@
        } else if c.matches is Some {
            t matches ConditionTest::VarMatches { var, pattern } && var@ == v && pattern@
                == c.matches->0@
        } else if c.gte is Some {
            t matches ConditionTest::VarAtLeast { var, threshold } && var@ == v && threshold
                == c.gte->0
        } else {
            t is VarWithoutTest
        }
    } else {
        t is Always
    }
}

/// The test the condition asks for.
pub fn condition_test(cond: &BranchCondition) -> (r: ConditionTest)
    ensures
        is_test_of(*cond, r),
{
    match &cond.if_visible {
        Some(p) => {
            return ConditionTest::Visible(p.clone());
        },
        None => {},
    }
    match &cond.if_not_visible {
        Some(p) => {
            return ConditionTest::NotVisible(p.clone());
        },
        None => {},
    }
    match &cond.if_var {
        Some(v) => {
            match &cond.equals {
                Some(e) => {
                    return ConditionTest::VarEquals { var: v.clone(), expected: e.clone() };
                },
                None => {},
            }
            match &cond.matches {
                Some(p) => {
                    return ConditionTest::VarMatches { var: v.clone(), pattern: p.clone() };
                },
                None => {},
            }
            match cond.gte {
                Some(t) => ConditionTest::VarAtLeast { var: v.clone(), threshold: t },
                None => ConditionTest::VarWithoutTest,
            }
        },
        None => ConditionTest::Always,
    }
}

// ── Integers in variables ────────────────────────────────────────────

/// The value of a run of ASCII digits.
pub open spec fn digits_value(s: Seq<char>) -> int
    decreases s.len(),
{
    if s.len() == 0 {
        0
    } else {
        digits_value(s.drop_last()) * 10 + (s.last() as int - '0' as int)
    }
}

/// The `i64` that `s` spells in decimal: an optional `+` or `-`, then one or
/// more ASCII digits and nothing else, within range (`i64`'s `FromStr`).
pub open spec fn spec_parse_i64(s: Seq<char>) -> Option<i64> {
    let neg = s.len() > 0 && s[0] == '-';
    let signed = s.len() > 0 && (s[0] == '-' || s[0] == '+');
    let ds = if signed {
        s.drop_first()
    } else {
        s
    };
    let v = if neg {
        -digits_value(ds)
    } else {
        digits_value(ds)
    };
    if ds.len() == 0 || !all_ascii_digits(ds) || v < i64::MIN || v > i64::MAX {
        None
    } else {
        Some(v as i64)
    }
}

proof fn lemma_digits_value_grows(s: Seq<char>, k: int)
    requires
        0 <= k <= s.len(),
        all_ascii_digits(s),
    ensures
        digits_value(s.take(k)) <= digits_value(s),
        0 <= digits_value(s.take(k)),
    decreases s.len() - k,
{
    if k < s.len() {
        let t = s.take(k + 1);
        assert(t.drop_last() =~= s.take(k));
        assert(t.last() == s[k]);
        assert('0' <= s[k] <= '9');
        lemma_digits_value_grows(s, k + 1);
    } else {
        assert(s.take(k) =~= s);
        lemma_digits_value_nonneg(s);
    }
}

proof fn lemma_digits_value_nonneg(s: Seq<char>)
    requires
        all_ascii_digits(s),
    ensures
        0 <= digits_value(s),
    decreases s.len(),
{
    if s.len() > 0 {
        assert(all_ascii_digits(s.drop_last()));
        assert('0' <= s.last() <= '9');
        lemma_digits_value_nonneg(s.drop_last());
    }
}

/// Parses a decimal `i64` as `str::parse::<i64>` does; `None` where it
/// fails.
pub fn parse_i64(s: &str) -> (r: Option<i64>)
    ensures
        r == spec_parse_i64(s@),
{
    let cs = chars_of(s);
    let n = cs.len();
    let neg = n > 0 && cs[0] == '-';
    let signed = n > 0 && (cs[0] == '-' || cs[0] == '+');
    let start: usize = if signed { 1 } else { 0 };
    let ghost ds = if signed { cs@.drop_first() } else { cs@ };
    assert(ds =~= cs@.skip(start as int));
    if start == n {
        return None;
    }
    let mut v: i128 = 0;
    let mut i: usize = start;
    while i < n
        invariant
            start <= i <= n,
            n == cs@.len(),
            cs@ == s@,
            signed == (s@.len() > 0 && (s@[0] == '-' || s@[0] == '+')),
            ds == (if signed { s@.drop_first() } else { s@ }),
            ds =~= cs@.skip(start as int),
            all_ascii_digits(ds.take(i - start)),
            v == digits_value(ds.take(i - start)),
            0 <= v <= 0x8000_0000_0000_0000,
        decreases n - i,
    {
        let c = cs[i];
        let ghost t = ds.take(i + 1 - start);
        assert(t.drop_last() =~= ds.take(i - start));
        assert(t.last() == c);
        if c < '0' || c > '9' {
            assert(ds[i - start] == c);
            assert(!all_ascii_digits(ds));

            return None;
        }
        let d = (c as u32 - '0' as u32) as i128;
        v = v * 10 + d;
        assert(all_ascii_digits(t));
        if v > 0x8000_0000_0000_0000 {
            proof {
                assert(v == digits_value(t));
                assert(t == ds.take(i + 1 - start));
                if all_ascii_digits(ds) {
                    lemma_digits_value_grows(ds, i + 1 - start);
                    assert(digits_value(ds) > 0x8000_0000_0000_0000);
                }
            }
            return None;
        }
        i = i + 1;
    }
    assert(ds.take(n - start) =~= ds);
    if neg {
        if v > 0x8000_0000_0000_0000 {
            None
        } else {
            Some((-v) as i64)
        }
    } else {
        if v > 0x7FFF_FFFF_FFFF_FFFF {
            None
        } else {
            Some(v as i64)
        }
    }
}

// ── Judging variable tests ───────────────────────────────────────────

/// `equals`: the variable has a string value equal to `expected`.
pub open spec fn spec_var_equals(value: Option<Seq<char>>, expected: Seq<char>) -> bool {
    value == Some(expected)
}

/// Whether the variable's string value (`None` when it is undefined or
/// not a string) equals `expected`.
pub fn var_equals(value: Option<&str>, expected: &str) -> (r: bool)
    ensures
        value matches Some(v) ==> (r <==> v@ == expected@),
        value is None ==> !r,
        r == spec_var_equals(
            match value {
                Some(v) => Some(v@),
                None => None,
            },
            expected@,
        ),
{
    match value {
        Some(v) => str_eq(v, expected),
        None => false,
    }
}

/// `gte`: the variable has a string value that parses as an integer at
/// least `threshold`.
pub open spec fn spec_var_at_least(value: Option<Seq<char>>, threshold: i64) -> bool {
    value matches Some(v) && spec_parse_i64(v) matches Some(n) && n >= threshold
}

/// Whether the variable's string value (`None` when undefined or not a
/// string) is an integer at least `threshold`; a value that does not parse
/// never is.
pub fn var_at_least(value: Option<&str>, threshold: i64) -> (r: bool)
    ensures
        r == spec_var_at_least(
            match value {
                Some(v) => Some(v@),
                None => None,
            },
            threshold,
        ),
{
    match value {
        Some(v) => match parse_i64(v) {
            Some(n) => n >= threshold,
            None => false,
        },
        None => false,
    }
}

/// The character view of an optional string slice.
pub open spec fn ov_str(o: Option<&str>) -> Option<Seq<char>> {
    match o {
        Some(v) => Some(v@),
        None => None,
    }
}

/// Whether a condition with test `t` holds, given the string value of the
/// variable it names (`None` when undefined or not a string): no test
/// always holds, a variable without a comparison never does, and `equals`
/// and `gte` are judged on the value. `None` for the screen tests and the
/// glob test, which need the screen or a glob matcher.
pub open spec fn spec_condition_holds(t: ConditionTest, value: Option<Seq<char>>) -> Option<bool> {
    match t {
        ConditionTest::Always => Some(true),
        ConditionTest::VarWithoutTest => Some(false),
        ConditionTest::VarEquals { expected, .. } => Some(spec_var_equals(value, expected@)),
        ConditionTest::VarAtLeast { threshold, .. } => Some(spec_var_at_least(value, threshold)),
        ConditionTest::Visible(_) => None,
        ConditionTest::NotVisible(_) => None,
        ConditionTest::VarMatches { .. } => None,
    }
}

/// Whether a condition with test `test` holds, given the string value of
/// the variable the test names; `None` when the screen or a glob match
/// decides.
pub fn condition_holds(test: &ConditionTest, value: Option<&str>) -> (r: Option<bool>)
    ensures
        r == spec_condition_holds(*test, ov_str(value)),
{
    match test {
        ConditionTest::Always => Some(true),
        ConditionTest::VarWithoutTest => Some(false),
        ConditionTest::VarEquals { expected, .. } => Some(var_equals(value, expected.as_str())),
        ConditionTest::VarAtLeast { threshold, .. } => Some(var_at_least(value, *threshold)),
        ConditionTest::Visible(_) => None,
        ConditionTest::NotVisible(_) => None,
        ConditionTest::VarMatches { .. } => None,
    }
}

/// Judged on the variable's value, a condition naming no test holds
/// whatever the variables hold, and one naming a variable without a
/// comparison never holds.
pub proof fn lemma_default_and_bare_variable(c: BranchCondition, t: ConditionTest, value: Option<Seq<char>>)
    requires
        is_test_of(c, t),
    ensures
        c.if_visible is None && c.if_not_visible is None && c.if_var is None ==> spec_condition_holds(t, value)
            == Some(true),
        c.if_visible is None && c.if_not_visible is None && c.if_var is Some && c.equals is None && c.matches is None
            && c.gte is None ==> spec_condition_holds(t, value) == Some(false),
{
}

/// An `equals` condition holds exactly when the variable's string value is
/// the expected text, character for character: a value that only starts
/// with it (`10` for `1`), or an undefined variable, does not match.
pub proof fn lemma_equals_is_exact(var: String, expected: String, value: Option<Seq<char>>)
    ensures
        spec_condition_holds(ConditionTest::VarEquals { var, expected }, value) == Some(
            value matches Some(v) && v == expected@,
        ),
        forall|v: Seq<char>, e: Seq<char>| #[trigger] spec_var_equals(Some(v), e) <==> v == e,
{
}

/// A `gte` condition holds exactly when the variable's value is the decimal
/// text of some integer (an optional sign and digits only) at least the
/// threshold; text that is not such a number never matches.
pub proof fn lemma_at_least_is_numeric(var: String, threshold: i64, value: Option<Seq<char>>)
    ensures
        spec_condition_holds(ConditionTest::VarAtLeast { var, threshold }, value) == Some(
            value matches Some(v) && spec_parse_i64(v) matches Some(n) && n >= threshold,
        ),
        forall|n: nat|
            n <= i64::MAX ==> (#[trigger] spec_var_at_least(Some(crate::text::spec_decimal(n)), threshold)
                <==> n >= threshold),
        forall|n: nat|
            n <= i64::MAX + 1 ==> (#[trigger] spec_var_at_least(
                Some(seq!['-'] + crate::text::spec_decimal(n)),
                threshold,
            ) <==> -n >= threshold),
{
    assert forall|n: nat|
        n <= i64::MAX implies (#[trigger] spec_var_at_least(Some(crate::text::spec_decimal(n)), threshold)
            <==> n >= threshold) by {
        lemma_parse_decimal_round_trip(n);
    }
    assert forall|n: nat|
        n <= i64::MAX + 1 implies (#[trigger] spec_var_at_least(
            Some(seq!['-'] + crate::text::spec_decimal(n)),
            threshold,
        ) <==> -n >= threshold) by {
        lemma_parse_decimal_round_trip(n);
    }
}

// ── Picking a branch ─────────────────────────────────────────────────

/// The next thing to do when picking a branch.
pub enum BranchStep {
    /// Judge the condition at this index, then call `branch_next`.
    Check(usize),
    /// The condition matched: jump to this block.
    Goto(String),
    /// No condition matched.
    NoMatch,
}

/// The first step: judge the first condition, or stop when there is none.
pub fn branch_start(conditions: &[BranchCondition]) -> (r: BranchStep)
    ensures
        conditions@.len() == 0 ==> r is NoMatch,
        conditions@.len() > 0 ==> (r matches BranchStep::Check(i) && i == 0),
{
    if conditions.len() == 0 {
        BranchStep::NoMatch
    } else {
        BranchStep::Check(0)
    }
}

/// The step after judging condition `i`: its `goto` when it matched, else
/// the next condition, else no match.
pub fn branch_next(conditions: &[BranchCondition], i: usize, matched: bool) -> (r: BranchStep)
    requires
        i < conditions@.len(),
    ensures
        matched ==> (r matches BranchStep::Goto(g) && g@ == conditions@[i as int].goto@),
        !matched && i + 1 < conditions@.len() ==> (r matches BranchStep::Check(j) && j == i + 1),
        !matched && i + 1 == conditions@.len() ==> r is NoMatch,
{
    if matched {
        BranchStep::Goto(conditions[i].goto.clone())
    } else if i < conditions.len() - 1 {
        BranchStep::Check(i + 1)
    } else {
        BranchStep::NoMatch
    }
}

// ── Laws ─────────────────────────────────────────────────────────────

proof fn lemma_decimal_digits(n: nat)
    ensures
        all_ascii_digits(crate::text::spec_decimal(n)),
        digits_value(crate::text::spec_decimal(n)) == n,
        crate::text::spec_decimal(n).len() > 0,
    decreases n,
{
    let d = crate::text::spec_decimal(n);
    let last = crate::text::digit_char(n % 10);
    assert(((48 + n % 10) as u8) == 48 + n % 10);
    assert(last as int == 48 + n % 10);
    assert('0' as int == 48);
    if n < 10 {
        assert(d.drop_last() =~= Seq::<char>::empty());
        assert(d.last() == last);
        assert(digits_value(d) == digits_value(d.drop_last()) * 10 + (d.last() as int - '0' as int));
        assert(digits_value(d.drop_last()) == 0);
    } else {
        lemma_decimal_digits(n / 10);
        let p = crate::text::spec_decimal(n / 10);
        assert(d == p.push(crate::text::digit_char(n % 10)));
        assert(d.drop_last() =~= p);
        assert(forall|i: int| 0 <= i < p.len() ==> d[i] == p[i]);
        assert(d.last() == last);
        assert(digits_value(d) == digits_value(p) * 10 + (last as int - '0' as int));
        assert((n / 10) * 10 + n % 10 == n);
    }
}

/// A number written in decimal parses back to itself, with or without a
/// leading `-` for its negation.
pub proof fn lemma_parse_decimal_round_trip(n: nat)
    ensures
        n <= i64::MAX ==> spec_parse_i64(crate::text::spec_decimal(n)) == Some(n as i64),
        n <= i64::MAX + 1 ==> spec_parse_i64(seq!['-'] + crate::text::spec_decimal(n)) == Some(
            (-n) as i64,
        ),
{
    lemma_decimal_digits(n);
    let d = crate::text::spec_decimal(n);
    assert('0' <= d[0] <= '9');
    assert((seq!['-'] + d).drop_first() =~= d);
}

/// The `u16` that `s` spells in decimal: an optional `+`, then one or more
/// ASCII digits and nothing else, at most 65535 (`u16`'s `FromStr`).
pub open spec fn spec_parse_u16(s: Seq<char>) -> Option<u16> {
    let ds = if s.len() > 0 && s[0] == '+' {
        s.drop_first()
    } else {
        s
    };
    if ds.len() == 0 || !all_ascii_digits(ds) || digits_value(ds) > u16::MAX {
        None
    } else {
        Some(digits_value(ds) as u16)
    }
}

/// Parses a decimal `u16` as `str::parse::<u16>` does; `None` where it
/// fails.
pub fn parse_u16(s: &str) -> (r: Option<u16>)
    ensures
        r == spec_parse_u16(s@),
{
    let cs = chars_of(s);
    let n = cs.len();
    let signed = n > 0 && cs[0] == '+';
    let start: usize = if signed { 1 } else { 0 };
    let ghost ds = if signed { cs@.drop_first() } else { cs@ };
    assert(ds =~= cs@.skip(start as int));
    if start == n {
        return None;
    }
    let mut v: u32 = 0;
    let mut i: usize = start;
    while i < n
        invariant
            start <= i <= n,
            n == cs@.len(),
            cs@ == s@,
            signed == (s@.len() > 0 && s@[0] == '+'),
            ds == (if signed { s@.drop_first() } else { s@ }),
            ds =~= cs@.skip(start as int),
            all_ascii_digits(ds.take(i - start)),
            v == digits_value(ds.take(i - start)),
            v <= 65535,
        decreases n - i,
    {
        let c = cs[i];
        let ghost t = ds.take(i + 1 - start);
        assert(t.drop_last() =~= ds.take(i - start));
        assert(t.last() == c);
        if c < '0' || c > '9' {
            assert(ds[i - start] == c);
            assert(!all_ascii_digits(ds));
            return None;
        }
        let d = c as u32 - '0' as u32;
        v = v * 10 + d;
        assert(all_ascii_digits(t));
        if v > 65535 {
            proof {
                assert(v == digits_value(t));
                assert(t == ds.take(i + 1 - start));
                if all_ascii_digits(ds) {
                    lemma_digits_value_grows(ds, i + 1 - start);
                }
            }
            return None;
        }
        i = i + 1;
    }
    assert(ds.take(n - start) =~= ds);
    Some(v as u16)
}

/// A port written in decimal parses back to itself.
pub proof fn lemma_parse_u16_round_trip(n: u16)
    ensures
        spec_parse_u16(crate::text::spec_decimal(n as nat)) == Some(n),
{
    lemma_decimal_digits(n as nat);
    let d = crate::text::spec_decimal(n as nat);
    assert('0' <= d[0] <= '9');
}

} // verus!
