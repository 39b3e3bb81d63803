//! The end-to-end scenario: rewritten predicates, evaluated over a small
//! table by a test-side interpreter of the two pattern-match operators.

use openobserve::expr::Expr;
use openobserve::expr::Operator;
use openobserve::expr::ScalarValue;
use openobserve::plan::LogicalPlan;
use openobserve::rewrite::RewriteMatch;

/// One row of table `t`: (_timestamp, name, log).
type Row = (i64, &'static str, &'static str);

const ROWS: [Row; 5] = [
    (1, "open", "o2"),
    (2, "observe", "obSERVE"),
    (3, "openobserve", "openobserve"),
    (4, "OBserve", "o2"),
    (5, "oo", "oo"),
];

fn column_value(e: &Expr, row: &Row) -> String {
    match e {
        Expr::Column { name } => match name.as_str() {
            "name" => row.1.to_string(),
            "log" => row.2.to_string(),
            _ => unreachable!(),
        },
        _ => unreachable!(),
    }
}

/// The `%term%` pattern with its wildcard markers removed.
fn pattern_term(e: &Expr) -> String {
    match e {
        Expr::Literal { value: ScalarValue::Utf8(Some(p)) } => {
            p.trim_start_matches('%').trim_end_matches('%').to_string()
        }
        _ => unreachable!(),
    }
}

/// Evaluates a rewritten predicate over one row; supports exactly the shapes
/// the rewrite produces plus the logical connectives.
fn eval(e: &Expr, row: &Row) -> bool {
    match e {
        Expr::Binary { left, op, right } => match op {
            Operator::And => eval(left, row) && eval(right, row),
            Operator::Or => eval(left, row) || eval(right, row),
            Operator::LikeMatch => column_value(left, row).contains(&pattern_term(right)),
            Operator::ILikeMatch => column_value(left, row)
                .to_lowercase()
                .contains(&pattern_term(right).to_lowercase()),
            Operator::Eq => unreachable!(),
        },
        _ => unreachable!(),
    }
}

fn matching_rows(query: Expr) -> Vec<i64> {
    let rule = RewriteMatch::new(vec![(
        "t".to_string(),
        vec!["name".to_string(), "log".to_string()],
    )]);
    let plan = LogicalPlan::Filter {
        predicate: query,
        input: Box::new(LogicalPlan::TableScan { table_name: "t".to_string() }),
    };
    let rewritten = rule.rewrite(plan).unwrap();
    assert!(rewritten.transformed);
    let predicate = match rewritten.data {
        LogicalPlan::Filter { predicate, .. } => predicate,
        _ => unreachable!(),
    };
    ROWS.iter().filter(|r| eval(&predicate, r)).map(|r| r.0).collect()
}

fn call(name: &str, term: &str) -> Expr {
    Expr::ScalarFunction {
        name: name.to_string(),
        args: vec![Expr::Literal { value: ScalarValue::Utf8(Some(term.to_string())) }],
    }
}

#[test]
fn test_rewrite_match() {
    // match_all('open'): rows whose name or log contains "open", any case.
    assert_eq!(matching_rows(call("match_all", "open")), vec![1, 3]);

    // match_all_raw_ignore_case('observe'): case-insensitive as well.
    assert_eq!(
        matching_rows(call("match_all_raw_ignore_case", "observe")),
        vec![2, 3, 4]
    );

    // match_all_raw('observe'): case-sensitive, so row 2's obSERVE and row
    // 4's OBserve no longer match.
    assert_eq!(matching_rows(call("match_all_raw", "observe")), vec![2, 3]);
}
