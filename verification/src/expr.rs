//! The expression-tree model: scalar/boolean expression nodes as they appear
//! in a filter predicate, and the spec-level view of such a tree.

use vstd::prelude::*;

verus! {

/// Comparison and logical operators that can appear in a predicate.
///
/// `LikeMatch` is a case-sensitive substring pattern match and `ILikeMatch`
/// its case-insensitive counterpart; they are the two operators the rewrite
/// produces.
#[derive(Clone, Copy, Debug, PartialEq, Eq)]
pub enum Operator {
    And,
    Or,
    Eq,
    LikeMatch,
    ILikeMatch,
}

/// A scalar literal: either a UTF-8 string (possibly absent, i.e. a null of
/// string type) or a value of some other type, which the rewrite never
/// inspects.
#[derive(Debug, PartialEq, Eq)]
pub enum ScalarValue {
    Utf8(Option<String>),
    Other,
}

/// One node of a scalar/boolean expression tree.
#[derive(Debug, PartialEq, Eq)]
pub enum Expr {
    /// An unqualified column reference.
    Column { name: String },
    /// A literal value.
    Literal { value: ScalarValue },
    /// A binary operation over two sub-expressions.
    Binary { left: Box<Expr>, op: Operator, right: Box<Expr> },
    /// A call of a named scalar function.
    ScalarFunction { name: String, args: Vec<Expr> },
}

/// The mathematical shape of a [`ScalarValue`].
pub enum SpecScalar {
    Utf8(Option<Seq<char>>),
    Other,
}

/// The mathematical shape of an [`Expr`]: the same tree with every string
/// replaced by its character sequence.
pub enum SpecExpr {
    Column { name: Seq<char> },
    Literal { value: SpecScalar },
    Binary { left: Box<SpecExpr>, op: Operator, right: Box<SpecExpr> },
    ScalarFunction { name: Seq<char>, args: Seq<SpecExpr> },
}

impl View for ScalarValue {
    type V = SpecScalar;

    open spec fn view(&self) -> SpecScalar {
        match self {
            ScalarValue::Utf8(v) => SpecScalar::Utf8(match v {
                Option::Some(s) => Option::Some(s@),
                Option::None => Option::None,
            }),
            ScalarValue::Other => SpecScalar::Other,
        }
    }
}

impl View for Expr {
    type V = SpecExpr;

    open spec fn view(&self) -> SpecExpr
        decreases self,
    {
        match self {
            Expr::Column { name } => SpecExpr::Column { name: name@ },
            Expr::Literal { value } => SpecExpr::Literal { value: value@ },
            Expr::Binary { left, op, right } => SpecExpr::Binary {
                left: Box::new((**left)@),
                op: *op,
                right: Box::new((**right)@),
            },
            Expr::ScalarFunction { name, args } => SpecExpr::ScalarFunction {
                name: name@,
                args: exprs_view(args@),
            },
        }
    }
}

/// The views of a sequence of expressions, element by element.
pub open spec fn exprs_view(es: Seq<Expr>) -> Seq<SpecExpr>
    decreases es,
{
    if es.len() == 0 {
        Seq::<SpecExpr>::empty()
    } else {
        seq![es[0]@] + exprs_view(es.subrange(1, es.len() as int))
    }
}

/// `exprs_view` is the element-wise view.
pub proof fn lemma_exprs_view(es: Seq<Expr>)
    ensures
        exprs_view(es).len() == es.len(),
        forall|i: int| 0 <= i < es.len() ==> #[trigger] exprs_view(es)[i] == es[i]@,
    decreases es.len(),
{
    if es.len() > 0 {
        let tail = es.subrange(1, es.len() as int);
        lemma_exprs_view(tail);
        assert(exprs_view(es) == seq![es[0]@] + exprs_view(tail));
        assert forall|i: int| 0 <= i < es.len() implies #[trigger] exprs_view(es)[i]
            == es[i]@ by {
            if i == 0 {
                assert(exprs_view(es)[0] == es[0]@);
            } else {
                assert(exprs_view(es)[i] == exprs_view(tail)[i - 1]);
                assert(tail[i - 1] == es[i]);
            }
        }
    }
}

/// The names under which the full-text predicate reaches the planner, exactly
/// as the query parser produces them.
pub open spec fn match_all_name() -> Seq<char> {
    "match_all"@
}

pub open spec fn match_all_raw_name() -> Seq<char> {
    "match_all_raw"@
}

pub open spec fn match_all_raw_ignore_case_name() -> Seq<char> {
    "match_all_raw_ignore_case"@
}

/// Whether `n` is one of the three recognized full-text call names.
pub open spec fn spec_is_full_text_name(n: Seq<char>) -> bool {
    n == match_all_name() || n == match_all_raw_name() || n == match_all_raw_ignore_case_name()
}

/// Whether this node itself is a full-text call.
pub open spec fn spec_is_match_all(e: SpecExpr) -> bool {
    match e {
        SpecExpr::ScalarFunction { name, .. } => spec_is_full_text_name(name),
        _ => false,
    }
}

/// Whether a full-text call is reachable anywhere in the tree rooted at `e`.
pub open spec fn spec_contains_full_text(e: SpecExpr) -> bool
    decreases e,
{
    spec_is_match_all(e) || (match e {
        SpecExpr::Binary { left, right, .. } => spec_contains_full_text(*left)
            || spec_contains_full_text(*right),
        SpecExpr::ScalarFunction { args, .. } => exists|i: int|
            0 <= i < args.len() && spec_contains_full_text(#[trigger] args[i]),
        _ => false,
    })
}

/// Compares a `String` against a string literal.
pub fn str_eq(a: &String, b: &str) -> (r: bool)
    ensures
        r == (a@ == b@),
{
    *a == b.to_owned()
}

/// Whether this node itself is a full-text call (one of the three recognized
/// names); the node's arguments are not inspected.
pub fn is_match_all(expr: &Expr) -> (r: bool)
    ensures
        r == spec_is_match_all(expr@),
{
    match expr {
        Expr::ScalarFunction { name, .. } => str_eq(name, "match_all") || str_eq(
            name,
            "match_all_raw",
        ) || str_eq(name, "match_all_raw_ignore_case"),
        _ => false,
    }
}

/// Whether a full-text call is reachable anywhere in the tree rooted at
/// `expr`; the existence check behind the rewrite rule's trigger decision.
#[verifier::loop_isolation(false)]
pub fn contains_full_text(expr: &Expr) -> (r: bool)
    ensures
        r == spec_contains_full_text(expr@),
    decreases *expr,
{
    if is_match_all(expr) {
        return true;
    }
    match expr {
        Expr::Binary { left, right, .. } => {
            let found = contains_full_text(left) || contains_full_text(right);
            proof {
                assert(expr@ == SpecExpr::Binary {
                    left: Box::new((**left)@),
                    op: expr->Binary_op,
                    right: Box::new((**right)@),
                });
            }
            found
        },
        Expr::ScalarFunction { args, .. } => {
            proof {
                lemma_exprs_view(args@);
            }
            let mut i: usize = 0;
            while i < args.len()
                invariant
                    0 <= i <= args.len(),
                    forall|j: int| 0 <= j < i ==> !spec_contains_full_text(#[trigger] args@[j]@),
                decreases args.len() - i,
            {
                if contains_full_text(&args[i]) {
                    proof {
                        assert(spec_contains_full_text(exprs_view(args@)[i as int]));
                        assert(expr@ matches SpecExpr::ScalarFunction { args: va, .. } && va
                            == exprs_view(args@));
                        assert((i as int) < exprs_view(args@).len());
                        assert(spec_contains_full_text(expr@));
                    }
                    return true;
                }
                i = i + 1;
            }
            false
        },
        _ => false,
    }
}

} // verus!
