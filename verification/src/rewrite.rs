//! The rewrite rule: detects full-text calls inside a filter's predicate,
//! resolves the filter's table, and replaces each call by a disjunction of
//! per-field pattern-match comparisons over the table's registered fields.

use crate::expr::contains_full_text;
use crate::expr::exprs_view;
use crate::expr::is_match_all;
use crate::expr::lemma_exprs_view;
use crate::expr::match_all_name;
use crate::expr::match_all_raw_ignore_case_name;
use crate::expr::match_all_raw_name;
use crate::expr::spec_contains_full_text;
use crate::expr::spec_is_full_text_name;
use crate::expr::spec_is_match_all;
use crate::expr::str_eq;
use crate::expr::Expr;
use crate::expr::Operator;
use crate::expr::ScalarValue;
use crate::expr::SpecExpr;
use crate::expr::SpecScalar;
use crate::plan::spec_first_table;
use crate::plan::LogicalPlan;
use crate::plan::SpecPlan;
use crate::plan::TableNameVisitor;
use vstd::prelude::*;

verus! {

/// Why a rewrite failed.  Every failure is returned as a value; the rule
/// never panics.
#[derive(Debug, PartialEq, Eq)]
pub enum RewriteError {
    /// A filter holding a full-text call has no table scan beneath it.
    UnresolvedTable,
    /// The named table has no entry in the field registry.
    UnknownFullTextFields { table: String },
    /// The sole argument of a full-text call is not a string literal, or the
    /// call does not have exactly one argument.
    MalformedFullTextArgument,
}

/// The mathematical shape of a [`RewriteError`].
pub enum SpecRewriteError {
    UnresolvedTable,
    UnknownFullTextFields { table: Seq<char> },
    MalformedFullTextArgument,
}

impl View for RewriteError {
    type V = SpecRewriteError;

    open spec fn view(&self) -> SpecRewriteError {
        match self {
            RewriteError::UnresolvedTable => SpecRewriteError::UnresolvedTable,
            RewriteError::UnknownFullTextFields { table } => SpecRewriteError::UnknownFullTextFields {
                table: table@,
            },
            RewriteError::MalformedFullTextArgument => SpecRewriteError::MalformedFullTextArgument,
        }
    }
}

/// A rewrite result: the (possibly new) tree plus whether a change occurred,
/// so callers can avoid reconstructing unchanged subtrees.
#[derive(Debug)]
pub struct Transformed<T> {
    pub data: T,
    pub transformed: bool,
}

impl<T> Transformed<T> {
    /// Marks `data` as changed by a rewrite.
    pub fn yes(data: T) -> (r: Self)
        ensures
            r == (Transformed { data, transformed: true }),
    {
        Transformed { data, transformed: true }
    }

    /// Marks `data` as unchanged.
    pub fn no(data: T) -> (r: Self)
        ensures
            r == (Transformed { data, transformed: false }),
    {
        Transformed { data, transformed: false }
    }
}

/// The unqualified part of a table name: everything after the final `.`, or
/// the whole name when it has none.
pub open spec fn strip_prefix_spec(s: Seq<char>) -> Seq<char>
    decreases s.len(),
{
    if s.len() == 0 {
        s
    } else if s[s.len() - 1] == '.' {
        Seq::<char>::empty()
    } else {
        strip_prefix_spec(s.drop_last()).push(s[s.len() - 1])
    }
}

/// Strips any catalog/schema qualification from a table name, keeping only
/// the segment after the final `.` separator.
#[verifier::loop_isolation(false)]
pub fn strip_prefix(name: String) -> (r: String)
    ensures
        r@ == strip_prefix_spec(name@),
{
    let n = name.as_str().unicode_len();
    let mut start: usize = 0;
    let mut i: usize = 0;
    while i < n
        invariant
            0 <= start <= i <= n,
            strip_prefix_spec(name@.subrange(0, i as int)) == name@.subrange(
                start as int,
                i as int,
            ),
        decreases n - i,
    {
        let c = name.as_str().get_char(i);
        proof {
            let pre = name@.subrange(0, i as int);
            let next = name@.subrange(0, i + 1);
            assert(next.drop_last() =~= pre);
            assert(next[next.len() - 1] == name@[i as int]);
            if name@[i as int] == '.' {
                assert(strip_prefix_spec(next) =~= name@.subrange(i + 1, i + 1));
            } else {
                assert(strip_prefix_spec(next) =~= name@.subrange(start as int, i + 1));
            }
        }
        if c == '.' {
            start = i + 1;
        }
        i = i + 1;
    }
    proof {
        assert(name@.subrange(0, n as int) =~= name@);
    }
    name.as_str().substring_char(start, n).to_owned()
}

/// The comparison operator a full-text call compiles to: the raw
/// case-sensitive variant maps to a case-sensitive match, the two others to a
/// case-insensitive one.
pub open spec fn spec_operator_for(name: Seq<char>) -> Operator {
    if name == match_all_raw_name() {
        Operator::LikeMatch
    } else {
        Operator::ILikeMatch
    }
}

/// The substring pattern for a search term: the term surrounded by `%`
/// wildcards.  Wildcard characters inside the term are not escaped.
pub open spec fn spec_pattern(term: Seq<char>) -> Seq<char> {
    seq!['%'] + term + seq!['%']
}

/// One per-field comparison: `column(field) <op> pattern`.
pub open spec fn spec_field_match(field: Seq<char>, op: Operator, pattern: Seq<char>) -> SpecExpr {
    SpecExpr::Binary {
        left: Box::new(SpecExpr::Column { name: field }),
        op,
        right: Box::new(SpecExpr::Literal { value: SpecScalar::Utf8(Option::Some(pattern)) }),
    }
}

/// The per-field comparisons combined with logical OR, left to right, in
/// field-set order; a single field yields the bare comparison.
pub open spec fn spec_disjunction(fields: Seq<Seq<char>>, op: Operator, pattern: Seq<char>) -> SpecExpr
    recommends
        fields.len() > 0,
    decreases fields.len(),
{
    if fields.len() <= 1 {
        spec_field_match(fields[0], op, pattern)
    } else {
        SpecExpr::Binary {
            left: Box::new(spec_disjunction(fields.drop_last(), op, pattern)),
            op: Operator::Or,
            right: Box::new(spec_field_match(fields.last(), op, pattern)),
        }
    }
}

/// What a full-text call with the given (already rewritten) arguments becomes:
/// the disjunction over the field set when the sole argument is a string
/// literal, and a hard error otherwise.
pub open spec fn spec_expand_call(
    name: Seq<char>,
    args: Seq<SpecExpr>,
    fields: Seq<Seq<char>>,
) -> Result<SpecExpr, SpecRewriteError> {
    if args.len() != 1 {
        Result::Err(SpecRewriteError::MalformedFullTextArgument)
    } else {
        match args[0] {
            SpecExpr::Literal { value: SpecScalar::Utf8(Option::Some(term)) } => Result::Ok(
                spec_disjunction(fields, spec_operator_for(name), spec_pattern(term)),
            ),
            _ => Result::Err(SpecRewriteError::MalformedFullTextArgument),
        }
    }
}

/// One bottom-up rewrite step at a single node whose children are already
/// rewritten: a full-text call is expanded, everything else is unchanged.
pub open spec fn spec_f_up(e: SpecExpr, fields: Seq<Seq<char>>) -> Result<
    SpecExpr,
    SpecRewriteError,
> {
    match e {
        SpecExpr::ScalarFunction { name, args } => if spec_is_full_text_name(name) {
            spec_expand_call(name, args, fields)
        } else {
            Result::Ok(e)
        },
        _ => Result::Ok(e),
    }
}

/// The full bottom-up rewrite of an expression tree: children first, then the
/// node itself; nodes that are not full-text calls keep their shape.
pub open spec fn spec_expand(e: SpecExpr, fields: Seq<Seq<char>>) -> Result<
    SpecExpr,
    SpecRewriteError,
>
    decreases e,
{
    match e {
        SpecExpr::Binary { left, op, right } => match (
            spec_expand(*left, fields),
            spec_expand(*right, fields),
        ) {
            (Result::Ok(l), Result::Ok(r)) => Result::Ok(
                SpecExpr::Binary { left: Box::new(l), op, right: Box::new(r) },
            ),
            (Result::Err(err), _) => Result::Err(err),
            (_, Result::Err(err)) => Result::Err(err),
        },
        SpecExpr::ScalarFunction { name, args } => match spec_expand_seq(args, fields) {
            Result::Ok(new_args) => spec_f_up(
                SpecExpr::ScalarFunction { name, args: new_args },
                fields,
            ),
            Result::Err(err) => Result::Err(err),
        },
        _ => Result::Ok(e),
    }
}

/// The rewrites of a sequence of expressions, stopping at the first error, in
/// left-to-right order.
pub open spec fn spec_expand_seq(es: Seq<SpecExpr>, fields: Seq<Seq<char>>) -> Result<
    Seq<SpecExpr>,
    SpecRewriteError,
>
    decreases es,
{
    if es.len() == 0 {
        Result::Ok(Seq::<SpecExpr>::empty())
    } else {
        match (spec_expand_seq(es.drop_last(), fields), spec_expand(es.last(), fields)) {
            (Result::Ok(front), Result::Ok(last)) => Result::Ok(front.push(last)),
            (Result::Err(err), _) => Result::Err(err),
            (_, Result::Err(err)) => Result::Err(err),
        }
    }
}

/// Builds `%term%` as an executable string.
fn make_pattern(term: &String) -> (r: String)
    ensures
        r@ == spec_pattern(term@),
{
    let mut p = String::new();
    p.append("%");
    p.append(term.as_str());
    p.append("%");
    proof {
        reveal_strlit("%");
        assert(p@ =~= spec_pattern(term@));
    }
    p
}

/// Builds one per-field comparison.
fn field_match(field: &String, op: Operator, pattern: &String) -> (e: Expr)
    ensures
        e@ == spec_field_match(field@, op, pattern@),
{
    let name_c = field.clone();
    let pattern_c = pattern.clone();
    proof {
        assert(name_c@ == field@);
        assert(pattern_c@ == pattern@);
    }
    let left = Expr::Column { name: name_c };
    let right = Expr::Literal { value: ScalarValue::Utf8(Option::Some(pattern_c)) };
    proof {
        assert(left@ == (SpecExpr::Column { name: field@ }));
        assert(right@ == (SpecExpr::Literal { value: SpecScalar::Utf8(Option::Some(pattern@)) }));
    }
    Expr::Binary { left: Box::new(left), op, right: Box::new(right) }
}

/// Builds the OR-combined per-field comparisons, in field-set order.
#[verifier::loop_isolation(false)]
fn build_disjunction(fields: &Vec<String>, op: Operator, pattern: &String) -> (e: Expr)
    requires
        fields@.len() > 0,
    ensures
        e@ == spec_disjunction(fields.deep_view(), op, pattern@),
{
    let ghost fv = fields.deep_view();
    proof {
        assert(fv.len() == fields@.len());
        assert(fv[0] == fields@[0]@);
    }
    let mut acc = field_match(&fields[0], op, pattern);
    proof {
        assert(fv.subrange(0, 1)[0] == fv[0]);
        assert(acc@ == spec_disjunction(fv.subrange(0, 1), op, pattern@));
    }
    let mut i: usize = 1;
    while i < fields.len()
        invariant
            1 <= i <= fields@.len(),
            acc@ == spec_disjunction(fv.subrange(0, i as int), op, pattern@),
        decreases fields@.len() - i,
    {
        proof {
            assert(fv[i as int] == fields@[i as int]@);
        }
        let fm = field_match(&fields[i], op, pattern);
        acc = Expr::Binary { left: Box::new(acc), op: Operator::Or, right: Box::new(fm) };
        proof {
            let t1 = fv.subrange(0, i as int);
            let t2 = fv.subrange(0, i + 1);
            assert(t2.drop_last() =~= t1);
            assert(t2.last() == fv[i as int]);
            assert(t2.len() >= 2);
            assert(acc@ == spec_disjunction(t2, op, pattern@));
        }
        i = i + 1;
    }
    proof {
        assert(fv.subrange(0, fields@.len() as int) =~= fv);
    }
    acc
}

/// Rewrites expressions bottom-up, replacing each full-text call over the
/// given fields by its per-field disjunction.
#[derive(Debug)]
pub struct MatchToFullTextMatch {
    /// The field set of the table under rewrite, in registry order.
    pub fields: Vec<String>,
}

impl MatchToFullTextMatch {
    /// A rewriter over the given field set.
    pub fn new(fields: Vec<String>) -> (r: Self)
        ensures
            r.fields == fields,
    {
        MatchToFullTextMatch { fields }
    }

    /// One rewrite step at a single node whose children are already
    /// rewritten: a full-text call becomes its disjunction (marked
    /// transformed); any other node is returned unchanged.
    pub fn f_up(&self, expr: Expr) -> (r: Result<Transformed<Expr>, RewriteError>)
        requires
            self.fields@.len() > 0,
        ensures
            match (r, spec_f_up(expr@, self.fields.deep_view())) {
                (Result::Ok(t), Result::Ok(se)) => t.data@ == se && t.transformed
                    == spec_is_match_all(expr@),
                (Result::Err(a), Result::Err(b)) => a@ == b,
                _ => false,
            },
    {
        let matched = is_match_all(&expr);
        match expr {
            Expr::ScalarFunction { name, args } => {
                if matched {
                    let op = if str_eq(&name, "match_all_raw") {
                        Operator::LikeMatch
                    } else {
                        Operator::ILikeMatch
                    };
                    proof {
                        lemma_exprs_view(args@);
                    }
                    if args.len() != 1 {
                        return Result::Err(RewriteError::MalformedFullTextArgument);
                    }
                    match &args[0] {
                        Expr::Literal { value: ScalarValue::Utf8(Option::Some(term)) } => {
                            let pattern = make_pattern(term);
                            let e = build_disjunction(&self.fields, op, &pattern);
                            proof {
                                assert(exprs_view(args@)[0] == args@[0]@);
                            }
                            Result::Ok(Transformed::yes(e))
                        },
                        _ => Result::Err(RewriteError::MalformedFullTextArgument),
                    }
                } else {
                    Result::Ok(Transformed::no(Expr::ScalarFunction { name, args }))
                }
            },
            other => Result::Ok(Transformed::no(other)),
        }
    }

    /// The full bottom-up rewrite of an expression tree: every full-text call
    /// anywhere in the tree is replaced by its disjunction; the surrounding
    /// logical structure is untouched.  The result is marked transformed
    /// exactly when the tree contained a full-text call.
    #[verifier::loop_isolation(false)]
    pub fn expand(&self, expr: &Expr) -> (r: Result<Transformed<Expr>, RewriteError>)
        requires
            self.fields@.len() > 0,
        ensures
            match (r, spec_expand(expr@, self.fields.deep_view())) {
                (Result::Ok(t), Result::Ok(se)) => t.data@ == se && t.transformed
                    == spec_contains_full_text(expr@),
                (Result::Err(a), Result::Err(b)) => a@ == b,
                _ => false,
            },
        decreases *expr,
    {
        match expr {
            Expr::Column { name } => Result::Ok(Transformed::no(Expr::Column { name: name.clone() })),
            Expr::Literal { value } => {
                let v = match value {
                    ScalarValue::Utf8(Option::Some(s)) => ScalarValue::Utf8(Option::Some(s.clone())),
                    ScalarValue::Utf8(Option::None) => ScalarValue::Utf8(Option::None),
                    ScalarValue::Other => ScalarValue::Other,
                };
                proof {
                    assert(v@ == value@);
                }
                Result::Ok(Transformed::no(Expr::Literal { value: v }))
            },
            Expr::Binary { left, op, right } => {
                let lt = match self.expand(left) {
                    Result::Ok(t) => t,
                    Result::Err(e) => {
                        return Result::Err(e);
                    },
                };
                let rt = match self.expand(right) {
                    Result::Ok(t) => t,
                    Result::Err(e) => {
                        return Result::Err(e);
                    },
                };
                let node = Expr::Binary { left: Box::new(lt.data), op: *op, right: Box::new(rt.data) };
                Result::Ok(Transformed { data: node, transformed: lt.transformed || rt.transformed })
            },
            Expr::ScalarFunction { name, args } => {
                let ghost fv = self.fields.deep_view();
                let ghost va = exprs_view(args@);
                proof {
                    lemma_exprs_view(args@);
                }
                let mut new_args: Vec<Expr> = Vec::new();
                let mut any = false;
                let mut i: usize = 0;
                while i < args.len()
                    invariant
                        0 <= i <= args.len(),
                        new_args@.len() == i,
                        spec_expand_seq(va.subrange(0, i as int), fv) == Result::<
                            Seq<SpecExpr>,
                            SpecRewriteError,
                        >::Ok(exprs_view(new_args@)),
                        any == exists|j: int|
                            0 <= j < i && spec_contains_full_text(#[trigger] va[j]),
                    decreases args.len() - i,
                {
                    let t = match self.expand(&args[i]) {
                        Result::Ok(t) => t,
                        Result::Err(e) => {
                            proof {
                                assert(va[i as int] == args@[i as int]@);
                                lemma_expand_seq_err(va, fv, i as int);
                            }
                            return Result::Err(e);
                        },
                    };
                    proof {
                        assert(va[i as int] == args@[i as int]@);
                    }
                    any = any || t.transformed;
                    let ghost old_seq = new_args@;
                    let ghost old_views = exprs_view(new_args@);
                    new_args.push(t.data);
                    proof {
                        lemma_exprs_view(new_args@);
                        assert(exprs_view(new_args@) =~= old_views.push(t.data@)) by {
                            lemma_exprs_view(old_seq);
                            assert forall|j: int| 0 <= j < new_args@.len() implies exprs_view(
                                new_args@,
                            )[j] == old_views.push(t.data@)[j] by {
                                if j < new_args@.len() - 1 {
                                    assert(new_args@[j] == old_seq[j]);
                                }
                            }
                        }
                        let t2 = va.subrange(0, i + 1);
                        assert(t2.drop_last() =~= va.subrange(0, i as int));
                        assert(t2.last() == va[i as int]);
                        assert(spec_expand_seq(t2, fv) == Result::<
                            Seq<SpecExpr>,
                            SpecRewriteError,
                        >::Ok(exprs_view(new_args@)));
                    }
                    i = i + 1;
                }
                proof {
                    assert(va.subrange(0, args@.len() as int) =~= va);
                }
                let node = Expr::ScalarFunction { name: name.clone(), args: new_args };
                let stepped = match self.f_up(node) {
                    Result::Ok(t) => t,
                    Result::Err(e) => {
                        return Result::Err(e);
                    },
                };
                Result::Ok(
                    Transformed { data: stepped.data, transformed: any || stepped.transformed },
                )
            },
        }
    }
}

/// When the elements before `k` all rewrite successfully and the element at
/// `k` fails, the whole sequence fails with that element's error.
proof fn lemma_expand_seq_err(es: Seq<SpecExpr>, fields: Seq<Seq<char>>, k: int)
    requires
        0 <= k < es.len(),
        spec_expand_seq(es.subrange(0, k), fields) is Ok,
        spec_expand(es[k], fields) is Err,
    ensures
        match (spec_expand_seq(es, fields), spec_expand(es[k], fields)) {
            (Result::Err(a), Result::Err(b)) => a == b,
            _ => false,
        },
    decreases es.len(),
{
    let front = es.drop_last();
    if k == es.len() - 1 {
        assert(es.subrange(0, k) =~= front);
        assert(es.last() == es[k]);
    } else {
        assert(front.subrange(0, k) =~= es.subrange(0, k));
        assert(front[k] == es[k]);
        lemma_expand_seq_err(front, fields, k);
    }
}

/// The first field set registered under `key`, or `None` when the registry
/// has no entry for it.
pub open spec fn spec_lookup(reg: Seq<(Seq<char>, Seq<Seq<char>>)>, key: Seq<char>) -> Option<
    Seq<Seq<char>>,
>
    decreases reg,
{
    if reg.len() == 0 {
        Option::None
    } else if reg[0].0 == key {
        Option::Some(reg[0].1)
    } else {
        spec_lookup(reg.subrange(1, reg.len() as int), key)
    }
}

/// A prefix of entries with other keys does not change the lookup result.
proof fn lemma_lookup_skip(reg: Seq<(Seq<char>, Seq<Seq<char>>)>, key: Seq<char>, k: int)
    requires
        0 <= k <= reg.len(),
        forall|i: int| 0 <= i < k ==> (#[trigger] reg[i]).0 != key,
    ensures
        spec_lookup(reg, key) == spec_lookup(reg.subrange(k, reg.len() as int), key),
    decreases k,
{
    if k == 0 {
        assert(reg.subrange(0, reg.len() as int) =~= reg);
    } else {
        let tail = reg.subrange(1, reg.len() as int);
        lemma_lookup_skip(tail, key, k - 1);
        assert(tail.subrange(k - 1, tail.len() as int) =~= reg.subrange(k, reg.len() as int));
    }
}

/// In a registry whose field sets are all non-empty, a successful lookup
/// yields a non-empty field set.
proof fn lemma_lookup_nonempty(reg: Seq<(Seq<char>, Seq<Seq<char>>)>, key: Seq<char>)
    requires
        forall|i: int| 0 <= i < reg.len() ==> (#[trigger] reg[i]).1.len() > 0,
    ensures
        match spec_lookup(reg, key) {
            Option::Some(l) => l.len() > 0,
            Option::None => true,
        },
    decreases reg,
{
    if reg.len() > 0 && reg[0].0 != key {
        lemma_lookup_nonempty(reg.subrange(1, reg.len() as int), key);
    }
}

/// What the rewrite rule does to one plan node: a filter whose predicate
/// holds a full-text call has its predicate expanded over the fields
/// registered for the table scanned beneath it; every other node, and every
/// filter without such a call, passes through unchanged.
pub open spec fn spec_rewrite(
    reg: Seq<(Seq<char>, Seq<Seq<char>>)>,
    p: SpecPlan,
) -> Result<(SpecPlan, bool), SpecRewriteError> {
    match p {
        SpecPlan::Filter { predicate, input } => if spec_contains_full_text(predicate) {
            match spec_first_table(p) {
                Option::None => Result::Err(SpecRewriteError::UnresolvedTable),
                Option::Some(raw) => {
                    let table = strip_prefix_spec(raw);
                    match spec_lookup(reg, table) {
                        Option::None => Result::Err(
                            SpecRewriteError::UnknownFullTextFields { table },
                        ),
                        Option::Some(fields) => match spec_expand(predicate, fields) {
                            Result::Ok(newpred) => Result::Ok(
                                (SpecPlan::Filter { predicate: newpred, input }, true),
                            ),
                            Result::Err(err) => Result::Err(err),
                        },
                    }
                },
            }
        } else {
            Result::Ok((p, false))
        },
        _ => Result::Ok((p, false)),
    }
}

/// Clones a field list.
fn clone_strings(v: &Vec<String>) -> (r: Vec<String>)
    ensures
        r.deep_view() == v.deep_view(),
        r@.len() == v@.len(),
{
    let mut r: Vec<String> = Vec::new();
    let mut i: usize = 0;
    while i < v.len()
        invariant
            0 <= i <= v@.len(),
            r@.len() == i,
            forall|j: int| 0 <= j < i ==> #[trigger] r@[j]@ == v@[j]@,
        decreases v@.len() - i,
    {
        r.push(v[i].clone());
        i = i + 1;
    }
    proof {
        assert(r.deep_view() =~= v.deep_view());
    }
    r
}

/// Resolves the table a plan subtree scans and strips its qualification: the
/// first table scan met by a children-first walk, or an explicit error when
/// the subtree scans no table.
pub fn get_table_name(plan: &LogicalPlan) -> (r: Result<String, RewriteError>)
    ensures
        match spec_first_table(plan@) {
            Option::Some(n) => r matches Result::Ok(t) && t@ == strip_prefix_spec(n),
            Option::None => r matches Result::Err(e) && e@ == SpecRewriteError::UnresolvedTable,
        },
{
    let mut visitor = TableNameVisitor::new();
    visitor.visit(plan);
    match visitor.name {
        Option::Some(raw) => Result::Ok(strip_prefix(raw)),
        Option::None => Result::Err(RewriteError::UnresolvedTable),
    }
}

/// The plan-level rewrite rule: holds the field registry (table name to
/// full-text field set) for one optimization pass and rewrites filter nodes
/// whose predicate carries a full-text call.
#[derive(Debug)]
pub struct RewriteMatch {
    /// The field registry: each entry maps a table name to the ordered list
    /// of its full-text-eligible field names.
    pub fields: Vec<(String, Vec<String>)>,
}

impl RewriteMatch {
    /// The registry as mathematics: table name and field-name sequence, in
    /// construction order; lookups take the first matching entry.
    pub open spec fn registry(&self) -> Seq<(Seq<char>, Seq<Seq<char>>)> {
        Seq::new(self.fields@.len(), |i: int| (self.fields@[i].0@, self.fields@[i].1.deep_view()))
    }

    /// Every registered table has at least one full-text field.
    pub open spec fn wf(&self) -> bool {
        forall|i: int| 0 <= i < self.registry().len() ==> (#[trigger] self.registry()[i]).1.len()
            > 0
    }

    /// A rule over the given registry, built once per query compilation.
    pub fn new(fields: Vec<(String, Vec<String>)>) -> (r: Self)
        ensures
            r == (RewriteMatch { fields }),
    {
        RewriteMatch { fields }
    }

    /// The rule's stable identifier for diagnostics and ordering.
    pub fn name(&self) -> (r: &str)
        ensures
            r@ == "rewrite_match"@,
    {
        "rewrite_match"
    }

    /// Looks a table up in the registry, cloning its field set.
    #[verifier::loop_isolation(false)]
    fn lookup(&self, key: &String) -> (r: Option<Vec<String>>)
        ensures
            match spec_lookup(self.registry(), key@) {
                Option::Some(l) => r matches Option::Some(v) && v.deep_view() == l,
                Option::None => r is None,
            },
    {
        let ghost reg = self.registry();
        let mut i: usize = 0;
        while i < self.fields.len()
            invariant
                0 <= i <= self.fields@.len(),
                forall|j: int| 0 <= j < i ==> (#[trigger] reg[j]).0 != key@,
            decreases self.fields@.len() - i,
        {
            let pair = &self.fields[i];
            if pair.0 == *key {
                let cloned = clone_strings(&pair.1);
                proof {
                    lemma_lookup_skip(reg, key@, i as int);
                    assert(reg.subrange(i as int, reg.len() as int)[0] == reg[i as int]);
                }
                return Option::Some(cloned);
            }
            i = i + 1;
        }
        proof {
            lemma_lookup_skip(reg, key@, reg.len() as int);
            assert(reg.subrange(reg.len() as int, reg.len() as int) =~= Seq::<
                (Seq<char>, Seq<Seq<char>>),
            >::empty());
        }
        Option::None
    }

    /// Rewrites one plan node, as invoked once per node during the
    /// surrounding bottom-up plan traversal.  A filter whose predicate holds
    /// a full-text call is replaced by a new filter over the expanded
    /// predicate; anything else is returned unchanged.  Every failure comes
    /// back as an explicit error, never a panic.
    pub fn rewrite(&self, plan: LogicalPlan) -> (r: Result<Transformed<LogicalPlan>, RewriteError>)
        requires
            self.wf(),
        ensures
            match (r, spec_rewrite(self.registry(), plan@)) {
                (Result::Ok(t), Result::Ok((sp, flag))) => t.data@ == sp && t.transformed == flag,
                (Result::Err(a), Result::Err(b)) => a@ == b,
                _ => false,
            },
    {
        match plan {
            LogicalPlan::Filter { predicate, input } => {
                if !contains_full_text(&predicate) {
                    return Result::Ok(
                        Transformed::no(LogicalPlan::Filter { predicate, input }),
                    );
                }
                let mut visitor = TableNameVisitor::new();
                visitor.visit(&input);
                let raw = match visitor.name {
                    Option::Some(n) => n,
                    Option::None => {
                        return Result::Err(RewriteError::UnresolvedTable);
                    },
                };
                let table = strip_prefix(raw);
                let flist = match self.lookup(&table) {
                    Option::Some(f) => f,
                    Option::None => {
                        return Result::Err(RewriteError::UnknownFullTextFields { table });
                    },
                };
                proof {
                    lemma_lookup_nonempty(self.registry(), table@);
                }
                let expander = MatchToFullTextMatch::new(flist);
                let t = match expander.expand(&predicate) {
                    Result::Ok(t) => t,
                    Result::Err(e) => {
                        return Result::Err(e);
                    },
                };
                Result::Ok(
                    Transformed::yes(LogicalPlan::Filter { predicate: t.data, input }),
                )
            },
            other => Result::Ok(Transformed::no(other)),
        }
    }
}

/// The raw case-sensitive variant selects the case-sensitive operator; the
/// normalized and raw case-insensitive variants select the case-insensitive
/// one.
pub proof fn lemma_operator_selection()
    ensures
        spec_operator_for(match_all_name()) == Operator::ILikeMatch,
        spec_operator_for(match_all_raw_name()) == Operator::LikeMatch,
        spec_operator_for(match_all_raw_ignore_case_name()) == Operator::ILikeMatch,
{
    reveal_strlit("match_all");
    reveal_strlit("match_all_raw");
    reveal_strlit("match_all_raw_ignore_case");
    assert(match_all_name().len() != match_all_raw_name().len());
    assert(match_all_raw_ignore_case_name().len() != match_all_raw_name().len());
}

/// Expanding a full-text call with a string-literal term yields exactly the
/// disjunction over the field set, under the call's own operator and the
/// `%term%` pattern.
pub proof fn lemma_expand_single(name: Seq<char>, term: Seq<char>, fields: Seq<Seq<char>>)
    requires
        spec_is_full_text_name(name),
    ensures
        spec_expand(
            SpecExpr::ScalarFunction {
                name,
                args: seq![
                    SpecExpr::Literal { value: SpecScalar::Utf8(Option::Some(term)) },
                ],
            },
            fields,
        ) == Result::<SpecExpr, SpecRewriteError>::Ok(
            spec_disjunction(fields, spec_operator_for(name), spec_pattern(term)),
        ),
{
    let lit = SpecExpr::Literal { value: SpecScalar::Utf8(Option::Some(term)) };
    let args = seq![lit];
    assert(spec_expand_seq(Seq::<SpecExpr>::empty(), fields) == Result::<
        Seq<SpecExpr>,
        SpecRewriteError,
    >::Ok(Seq::<SpecExpr>::empty()));
    assert(args.drop_last() =~= Seq::<SpecExpr>::empty());
    assert(args.last() == lit);
    assert(spec_expand(lit, fields) == Result::<SpecExpr, SpecRewriteError>::Ok(lit));
    assert(spec_expand_seq(args, fields) == Result::<Seq<SpecExpr>, SpecRewriteError>::Ok(
        Seq::<SpecExpr>::empty().push(lit),
    ));
    assert(Seq::<SpecExpr>::empty().push(lit) =~= args);
}

/// Expansion correctness over a two-field set: the rewritten predicate for a
/// normalized `match_all` call is exactly
/// `f1 ILIKE '%term%' OR f2 ILIKE '%term%'`.
pub proof fn lemma_expansion_two_fields(term: Seq<char>, f1: Seq<char>, f2: Seq<char>)
    ensures
        spec_expand(
            SpecExpr::ScalarFunction {
                name: match_all_name(),
                args: seq![
                    SpecExpr::Literal { value: SpecScalar::Utf8(Option::Some(term)) },
                ],
            },
            seq![f1, f2],
        ) == Result::<SpecExpr, SpecRewriteError>::Ok(
            SpecExpr::Binary {
                left: Box::new(spec_field_match(f1, Operator::ILikeMatch, spec_pattern(term))),
                op: Operator::Or,
                right: Box::new(spec_field_match(f2, Operator::ILikeMatch, spec_pattern(term))),
            },
        ),
{
    reveal_strlit("match_all");
    lemma_operator_selection();
    lemma_expand_single(match_all_name(), term, seq![f1, f2]);
    let fields = seq![f1, f2];
    assert(fields.drop_last() =~= seq![f1]);
    assert(fields.last() == f2);
    assert(spec_disjunction(seq![f1], Operator::ILikeMatch, spec_pattern(term))
        == spec_field_match(f1, Operator::ILikeMatch, spec_pattern(term)));
}

/// The expansion of a full-text call contains no full-text call: a
/// disjunction is built of columns, literals and binary operators only.
pub proof fn lemma_disjunction_no_full_text(fields: Seq<Seq<char>>, op: Operator, pattern: Seq<char>)
    ensures
        !spec_contains_full_text(spec_disjunction(fields, op, pattern)),
    decreases fields.len(),
{
    reveal_with_fuel(spec_contains_full_text, 3);
    if fields.len() > 1 {
        lemma_disjunction_no_full_text(fields.drop_last(), op, pattern);
    }
}

/// After one rewrite of a sequence of expressions, no full-text call remains
/// in any element.
proof fn lemma_expand_seq_no_full_text(es: Seq<SpecExpr>, fields: Seq<Seq<char>>)
    ensures
        match spec_expand_seq(es, fields) {
            Result::Ok(na) => na.len() == es.len() && forall|i: int|
                0 <= i < na.len() ==> !spec_contains_full_text(#[trigger] na[i]),
            Result::Err(_) => true,
        },
    decreases es,
{
    if es.len() > 0 {
        lemma_expand_seq_no_full_text(es.drop_last(), fields);
        lemma_expand_no_full_text(es.last(), fields);
    }
}

/// After one rewrite pass over an expression, no full-text call remains
/// anywhere in the result.
pub proof fn lemma_expand_no_full_text(e: SpecExpr, fields: Seq<Seq<char>>)
    ensures
        match spec_expand(e, fields) {
            Result::Ok(r) => !spec_contains_full_text(r),
            Result::Err(_) => true,
        },
    decreases e,
{
    match e {
        SpecExpr::Binary { left, right, .. } => {
            lemma_expand_no_full_text(*left, fields);
            lemma_expand_no_full_text(*right, fields);
        },
        SpecExpr::ScalarFunction { name, args } => {
            lemma_expand_seq_no_full_text(args, fields);
            match spec_expand_seq(args, fields) {
                Result::Ok(na) => {
                    if spec_is_full_text_name(name) && na.len() == 1 {
                        match na[0] {
                            SpecExpr::Literal { value: SpecScalar::Utf8(Option::Some(t)) } => {
                                lemma_disjunction_no_full_text(
                                    fields,
                                    spec_operator_for(name),
                                    spec_pattern(t),
                                );
                            },
                            _ => {},
                        }
                    }
                },
                Result::Err(_) => {},
            }
        },
        _ => {},
    }
}

/// Idempotence: a plan node the rule has just rewritten is returned unchanged
/// by a second application, because the rewritten predicate holds no
/// full-text call any more.
pub proof fn lemma_rewrite_idempotent(
    reg: Seq<(Seq<char>, Seq<Seq<char>>)>,
    p: SpecPlan,
    q: SpecPlan,
)
    requires
        spec_rewrite(reg, p) == Result::<(SpecPlan, bool), SpecRewriteError>::Ok((q, true)),
    ensures
        spec_rewrite(reg, q) == Result::<(SpecPlan, bool), SpecRewriteError>::Ok((q, false)),
{
    match p {
        SpecPlan::Filter { predicate, input } => {
            if spec_contains_full_text(predicate) {
                match spec_first_table(p) {
                    Option::Some(raw) => {
                        match spec_lookup(reg, strip_prefix_spec(raw)) {
                            Option::Some(fields) => {
                                lemma_expand_no_full_text(predicate, fields);
                            },
                            Option::None => {},
                        }
                    },
                    Option::None => {},
                }
            }
        },
        _ => {},
    }
}

/// Non-trigger: a filter without a full-text call, and any non-filter node,
/// passes through unchanged, and the result does not depend on the registry —
/// no registry lookup takes place.
pub proof fn lemma_non_trigger(
    reg1: Seq<(Seq<char>, Seq<Seq<char>>)>,
    reg2: Seq<(Seq<char>, Seq<Seq<char>>)>,
    p: SpecPlan,
)
    requires
        !match p {
            SpecPlan::Filter { predicate, .. } => spec_contains_full_text(predicate),
            _ => false,
        },
    ensures
        spec_rewrite(reg1, p) == Result::<(SpecPlan, bool), SpecRewriteError>::Ok((p, false)),
        spec_rewrite(reg1, p) == spec_rewrite(reg2, p),
{
}

/// A full-text call over a table absent from the registry yields an explicit
/// error naming the (unqualified) table, never a silently unchanged plan.
pub proof fn lemma_missing_registry_entry(
    reg: Seq<(Seq<char>, Seq<Seq<char>>)>,
    p: SpecPlan,
    raw: Seq<char>,
)
    requires
        match p {
            SpecPlan::Filter { predicate, .. } => spec_contains_full_text(predicate),
            _ => false,
        },
        spec_first_table(p) == Option::Some(raw),
        spec_lookup(reg, strip_prefix_spec(raw)) is None,
    ensures
        spec_rewrite(reg, p) == Result::<(SpecPlan, bool), SpecRewriteError>::Err(
            SpecRewriteError::UnknownFullTextFields { table: strip_prefix_spec(raw) },
        ),
{
}

/// Table-name normalization: a scan qualified as `prefix.t` resolves to the
/// bare segment `t` after the final dot.
pub proof fn lemma_strip_qualified(prefix: Seq<char>, last: Seq<char>)
    requires
        !last.contains('.'),
    ensures
        strip_prefix_spec(prefix + seq!['.'] + last) == last,
    decreases last.len(),
{
    let s = prefix + seq!['.'] + last;
    if last.len() == 0 {
        assert(s[s.len() - 1] == '.');
        assert(strip_prefix_spec(s) =~= last);
    } else {
        assert(s[s.len() - 1] == last[last.len() - 1]);
        assert(last[last.len() - 1] != '.');
        assert(s.drop_last() =~= prefix + seq!['.'] + last.drop_last());
        assert(!last.drop_last().contains('.')) by {
            assert(forall|i: int|
                0 <= i < last.drop_last().len() ==> last.drop_last()[i] == last[i]);
        }
        lemma_strip_qualified(prefix, last.drop_last());
        assert(strip_prefix_spec(s) =~= last.drop_last().push(last[last.len() - 1]));
        assert(last.drop_last().push(last[last.len() - 1]) =~= last);
    }
}

/// A name with no qualifier strips to itself.
pub proof fn lemma_strip_unqualified(s: Seq<char>)
    requires
        !s.contains('.'),
    ensures
        strip_prefix_spec(s) == s,
    decreases s.len(),
{
    if s.len() > 0 {
        assert(s[s.len() - 1] != '.');
        assert(!s.drop_last().contains('.')) by {
            assert(forall|i: int| 0 <= i < s.drop_last().len() ==> s.drop_last()[i] == s[i]);
        }
        lemma_strip_unqualified(s.drop_last());
        assert(s.drop_last().push(s[s.len() - 1]) =~= s);
    }
}

/// Multiple calls: two full-text calls combined with AND are rewritten
/// independently, each under its own operator, and the AND is kept.
pub proof fn lemma_multiple_calls(t1: Seq<char>, t2: Seq<char>, fields: Seq<Seq<char>>)
    ensures
        spec_expand(
            SpecExpr::Binary {
                left: Box::new(
                    SpecExpr::ScalarFunction {
                        name: match_all_name(),
                        args: seq![
                            SpecExpr::Literal { value: SpecScalar::Utf8(Option::Some(t1)) },
                        ],
                    },
                ),
                op: Operator::And,
                right: Box::new(
                    SpecExpr::ScalarFunction {
                        name: match_all_raw_name(),
                        args: seq![
                            SpecExpr::Literal { value: SpecScalar::Utf8(Option::Some(t2)) },
                        ],
                    },
                ),
            },
            fields,
        ) == Result::<SpecExpr, SpecRewriteError>::Ok(
            SpecExpr::Binary {
                left: Box::new(spec_disjunction(fields, Operator::ILikeMatch, spec_pattern(t1))),
                op: Operator::And,
                right: Box::new(spec_disjunction(fields, Operator::LikeMatch, spec_pattern(t2))),
            },
        ),
{
    reveal_strlit("match_all");
    reveal_strlit("match_all_raw");
    reveal_strlit("match_all_raw_ignore_case");
    lemma_operator_selection();
    lemma_expand_single(match_all_name(), t1, fields);
    lemma_expand_single(match_all_raw_name(), t2, fields);
}

} // verus!
