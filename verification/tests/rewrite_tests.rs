use openobserve::expr::Expr;
use openobserve::expr::Operator;
use openobserve::expr::ScalarValue;
use openobserve::plan::LogicalPlan;
use openobserve::plan::TableNameVisitor;
use openobserve::rewrite::get_table_name;
use openobserve::rewrite::strip_prefix;
use openobserve::rewrite::MatchToFullTextMatch;
use openobserve::rewrite::RewriteError;
use openobserve::rewrite::RewriteMatch;

fn lit(t: &str) -> Expr {
    Expr::Literal { value: ScalarValue::Utf8(Some(t.to_string())) }
}

fn col(n: &str) -> Expr {
    Expr::Column { name: n.to_string() }
}

fn call(name: &str, term: &str) -> Expr {
    Expr::ScalarFunction { name: name.to_string(), args: vec![lit(term)] }
}

fn binary(l: Expr, op: Operator, r: Expr) -> Expr {
    Expr::Binary { left: Box::new(l), op, right: Box::new(r) }
}

fn cmp(field: &str, op: Operator, term: &str) -> Expr {
    binary(col(field), op, lit(&format!("%{}%", term)))
}

fn scan(t: &str) -> LogicalPlan {
    LogicalPlan::TableScan { table_name: t.to_string() }
}

fn filter(pred: Expr, t: &str) -> LogicalPlan {
    LogicalPlan::Filter { predicate: pred, input: Box::new(scan(t)) }
}

fn rule_t() -> RewriteMatch {
    RewriteMatch::new(vec![(
        "t".to_string(),
        vec!["name".to_string(), "log".to_string()],
    )])
}

#[test]
fn test_expansion_two_fields() {
    let r = rule_t().rewrite(filter(call("match_all", "open"), "t")).unwrap();
    assert!(r.transformed);
    let expected = filter(
        binary(
            cmp("name", Operator::ILikeMatch, "open"),
            Operator::Or,
            cmp("log", Operator::ILikeMatch, "open"),
        ),
        "t",
    );
    assert_eq!(r.data, expected);
}

#[test]
fn test_raw_variant_operators() {
    let rule = RewriteMatch::new(vec![("t".to_string(), vec!["log".to_string()])]);
    let r = rule.rewrite(filter(call("match_all_raw", "Open"), "t")).unwrap();
    assert_eq!(r.data, filter(cmp("log", Operator::LikeMatch, "Open"), "t"));

    let r = rule.rewrite(filter(call("match_all_raw_ignore_case", "Open"), "t")).unwrap();
    assert_eq!(r.data, filter(cmp("log", Operator::ILikeMatch, "Open"), "t"));

    let r = rule.rewrite(filter(call("match_all", "Open"), "t")).unwrap();
    assert_eq!(r.data, filter(cmp("log", Operator::ILikeMatch, "Open"), "t"));
}

#[test]
fn test_idempotence() {
    let rule = rule_t();
    let once = rule.rewrite(filter(call("match_all", "open"), "t")).unwrap();
    assert!(once.transformed);
    let expected = filter(
        binary(
            cmp("name", Operator::ILikeMatch, "open"),
            Operator::Or,
            cmp("log", Operator::ILikeMatch, "open"),
        ),
        "t",
    );
    assert_eq!(once.data, expected);
    let twice = rule.rewrite(once.data).unwrap();
    assert!(!twice.transformed);
    assert_eq!(twice.data, expected);
}

#[test]
fn test_table_name_normalization() {
    assert_eq!(strip_prefix("catalog.schema.t".to_string()), "t");
    assert_eq!(strip_prefix("t".to_string()), "t");
    assert_eq!(
        get_table_name(&scan("catalog.schema.t")).unwrap(),
        "t".to_string()
    );
    // A qualified scan still resolves to the registry entry under the bare name.
    let r = rule_t()
        .rewrite(filter(call("match_all", "open"), "catalog.schema.t"))
        .unwrap();
    assert!(r.transformed);
}

#[test]
fn test_non_trigger_unchanged() {
    // No full-text call: unchanged, even though the table is unregistered.
    let rule = rule_t();
    let plain = filter(binary(col("name"), Operator::Eq, lit("x")), "unregistered");
    let expected = filter(binary(col("name"), Operator::Eq, lit("x")), "unregistered");
    let r = rule.rewrite(plain).unwrap();
    assert!(!r.transformed);
    assert_eq!(r.data, expected);

    // Non-filter nodes pass through untouched.
    let r = rule.rewrite(scan("anything")).unwrap();
    assert!(!r.transformed);
    assert_eq!(r.data, scan("anything"));
}

#[test]
fn test_missing_registry_entry() {
    let err = rule_t()
        .rewrite(filter(call("match_all", "open"), "missing"))
        .unwrap_err();
    assert_eq!(
        err,
        RewriteError::UnknownFullTextFields { table: "missing".to_string() }
    );
}

#[test]
fn test_unresolved_table() {
    let plan = LogicalPlan::Filter {
        predicate: call("match_all", "open"),
        input: Box::new(LogicalPlan::Other { children: vec![] }),
    };
    assert_eq!(rule_t().rewrite(plan).unwrap_err(), RewriteError::UnresolvedTable);
}

#[test]
fn test_malformed_argument() {
    // The sole argument must be a string literal.
    let bad = Expr::ScalarFunction { name: "match_all".to_string(), args: vec![col("name")] };
    assert_eq!(
        rule_t().rewrite(filter(bad, "t")).unwrap_err(),
        RewriteError::MalformedFullTextArgument
    );
    // And there must be exactly one argument.
    let none = Expr::ScalarFunction { name: "match_all".to_string(), args: vec![] };
    assert_eq!(
        rule_t().rewrite(filter(none, "t")).unwrap_err(),
        RewriteError::MalformedFullTextArgument
    );
}

#[test]
fn test_multiple_calls_keep_structure() {
    let pred = binary(
        call("match_all", "a"),
        Operator::And,
        call("match_all_raw", "b"),
    );
    let r = rule_t().rewrite(filter(pred, "t")).unwrap();
    let expected = filter(
        binary(
            binary(
                cmp("name", Operator::ILikeMatch, "a"),
                Operator::Or,
                cmp("log", Operator::ILikeMatch, "a"),
            ),
            Operator::And,
            binary(
                cmp("name", Operator::LikeMatch, "b"),
                Operator::Or,
                cmp("log", Operator::LikeMatch, "b"),
            ),
        ),
        "t",
    );
    assert_eq!(r.data, expected);
}

#[test]
fn test_nested_call_is_rewritten() {
    // A call buried under other operators is still found and expanded.
    let rule = RewriteMatch::new(vec![("t".to_string(), vec!["log".to_string()])]);
    let pred = binary(
        binary(col("x"), Operator::Eq, lit("1")),
        Operator::Or,
        call("match_all", "oo"),
    );
    let r = rule.rewrite(filter(pred, "t")).unwrap();
    let expected = filter(
        binary(
            binary(col("x"), Operator::Eq, lit("1")),
            Operator::Or,
            cmp("log", Operator::ILikeMatch, "oo"),
        ),
        "t",
    );
    assert_eq!(r.data, expected);
}

#[test]
fn test_other_calls_untouched() {
    let rule = rule_t();
    let pred = Expr::ScalarFunction { name: "length".to_string(), args: vec![col("name")] };
    let expected = filter(
        Expr::ScalarFunction { name: "length".to_string(), args: vec![col("name")] },
        "t",
    );
    let r = rule.rewrite(filter(pred, "t")).unwrap();
    assert!(!r.transformed);
    assert_eq!(r.data, expected);
}

#[test]
fn test_visitor_first_scan_wins() {
    let join = LogicalPlan::Other { children: vec![scan("first"), scan("second")] };
    let mut v = TableNameVisitor::new();
    v.visit(&join);
    assert_eq!(v.name, Some("first".to_string()));

    let empty = LogicalPlan::Other { children: vec![] };
    let mut v = TableNameVisitor::new();
    v.visit(&empty);
    assert_eq!(v.name, None);
}

#[test]
fn test_rule_name() {
    assert_eq!(rule_t().name(), "rewrite_match");
}

#[test]
fn test_expander_step() {
    let expander = MatchToFullTextMatch::new(vec!["log".to_string()]);
    let r = expander.f_up(call("match_all", "oo")).unwrap();
    assert!(r.transformed);
    assert_eq!(r.data, cmp("log", Operator::ILikeMatch, "oo"));

    let r = expander.f_up(col("x")).unwrap();
    assert!(!r.transformed);
    assert_eq!(r.data, col("x"));
}
