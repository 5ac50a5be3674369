use golem_runner::branch::{
    branch_next, branch_start, condition_holds, condition_test, parse_i64, var_at_least, var_equals,
    BranchCondition, BranchStep, ConditionTest,
};

fn cond() -> BranchCondition {
    BranchCondition {
        if_visible: None,
        if_not_visible: None,
        if_var: None,
        equals: None,
        matches: None,
        gte: None,
        goto: "next".to_string(),
    }
}

#[test]
fn screen_tests_take_precedence() {
    let mut c = cond();
    c.if_visible = Some("Welcome*".to_string());
    c.if_var = Some("x".to_string());
    c.equals = Some("1".to_string());
    assert!(matches!(condition_test(&c), ConditionTest::Visible(p) if p == "Welcome*"));
    let mut c2 = cond();
    c2.if_not_visible = Some("Login".to_string());
    assert!(matches!(condition_test(&c2), ConditionTest::NotVisible(p) if p == "Login"));
}

#[test]
fn variable_tests_in_field_order() {
    let mut c = cond();
    c.if_var = Some("count".to_string());
    c.matches = Some("a*".to_string());
    c.gte = Some(3);
    assert!(matches!(condition_test(&c), ConditionTest::VarMatches { var, pattern } if var == "count" && pattern == "a*"));
    c.matches = None;
    assert!(matches!(condition_test(&c), ConditionTest::VarAtLeast { var, threshold: 3 } if var == "count"));
    c.gte = None;
    assert!(matches!(condition_test(&c), ConditionTest::VarWithoutTest));
    assert!(matches!(condition_test(&cond()), ConditionTest::Always));
}

#[test]
fn equals_needs_a_string_value() {
    assert!(var_equals(Some("credit_card"), "credit_card"));
    assert!(!var_equals(Some("cash"), "credit_card"));
    assert!(!var_equals(None, "credit_card"));
}

#[test]
fn gte_parses_integers_like_std() {
    assert!(var_at_least(Some("10"), 5));
    assert!(var_at_least(Some("5"), 5));
    assert!(!var_at_least(Some("4"), 5));
    assert!(!var_at_least(Some("abc"), 5));
    assert!(!var_at_least(None, i64::MIN));
    for s in ["0", "-0", "+7", "-12", "9223372036854775807", "-9223372036854775808", "", "-", "+", " 1", "1 ", "1_000", "9223372036854775808", "-9223372036854775809", "+-1", "00042", "99999999999999999999999"] {
        assert_eq!(parse_i64(s), s.parse::<i64>().ok(), "parsing {s:?}");
    }
}

#[test]
fn first_matching_condition_wins() {
    let mut a = cond();
    a.goto = "a".to_string();
    let mut b = cond();
    b.goto = "b".to_string();
    let mut c = cond();
    c.goto = "c".to_string();
    let conds = [a, b, c];
    let outcomes = [false, true, true];
    let mut step = branch_start(&conds);
    let picked = loop {
        match step {
            BranchStep::Check(i) => step = branch_next(&conds, i, outcomes[i]),
            BranchStep::Goto(g) => break Some(g),
            BranchStep::NoMatch => break None,
        }
    };
    assert_eq!(picked.as_deref(), Some("b"));
    assert!(matches!(branch_start(&[]), BranchStep::NoMatch));
    assert!(matches!(branch_next(&conds, 2, false), BranchStep::NoMatch));
}

#[test]
fn decimal_numbers_parse_back() {
    for n in [0i64, 7, 42, 1_000_000, i64::MAX, -1, -99, i64::MIN] {
        assert_eq!(parse_i64(&n.to_string()), Some(n));
    }
}

#[test]
fn condition_truth_values() {
    // No test: always holds.
    let t = condition_test(&cond());
    assert_eq!(condition_holds(&t, None), Some(true));
    // A variable without a comparison: never holds.
    let mut c = cond();
    c.if_var = Some("mode".to_string());
    let t = condition_test(&c);
    assert_eq!(condition_holds(&t, Some("anything")), Some(false));
    // equals
    let mut c = cond();
    c.if_var = Some("mode".to_string());
    c.equals = Some("dark".to_string());
    let t = condition_test(&c);
    assert_eq!(condition_holds(&t, Some("dark")), Some(true));
    assert_eq!(condition_holds(&t, Some("light")), Some(false));
    assert_eq!(condition_holds(&t, None), Some(false));
    // gte
    let mut c = cond();
    c.if_var = Some("count".to_string());
    c.gte = Some(3);
    let t = condition_test(&c);
    assert_eq!(condition_holds(&t, Some("5")), Some(true));
    assert_eq!(condition_holds(&t, Some("2")), Some(false));
    assert_eq!(condition_holds(&t, Some("x")), Some(false));
    // Screen and glob tests are decided by the caller.
    let mut c = cond();
    c.if_visible = Some("Welcome".to_string());
    assert_eq!(condition_holds(&condition_test(&c), None), None);
    let mut c = cond();
    c.if_var = Some("mode".to_string());
    c.matches = Some("d*".to_string());
    assert_eq!(condition_holds(&condition_test(&c), Some("dark")), None);
}
