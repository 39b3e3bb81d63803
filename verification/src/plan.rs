//! The query-plan model: plan nodes and resolution of the table a filter
//! applies to.

use crate::expr::Expr;
use crate::expr::SpecExpr;
use vstd::prelude::*;

verus! {

/// One stage of a query execution plan.  A rewrite produces a new node; a
/// node is never changed in place.
#[derive(Debug, PartialEq, Eq)]
pub enum LogicalPlan {
    /// A filter: keeps the input rows satisfying the predicate.
    Filter { predicate: Expr, input: Box<LogicalPlan> },
    /// A scan of a named table; the name may carry `catalog.schema.`
    /// qualifiers.
    TableScan { table_name: String },
    /// Any other plan node (projection, join, aggregation, ...); only its
    /// children matter to this pass.
    Other { children: Vec<LogicalPlan> },
}

/// The mathematical shape of a [`LogicalPlan`].
pub enum SpecPlan {
    Filter { predicate: SpecExpr, input: Box<SpecPlan> },
    TableScan { table_name: Seq<char> },
    Other { children: Seq<SpecPlan> },
}

impl View for LogicalPlan {
    type V = SpecPlan;

    open spec fn view(&self) -> SpecPlan
        decreases self,
    {
        match self {
            LogicalPlan::Filter { predicate, input } => SpecPlan::Filter {
                predicate: predicate@,
                input: Box::new((**input)@),
            },
            LogicalPlan::TableScan { table_name } => SpecPlan::TableScan {
                table_name: table_name@,
            },
            LogicalPlan::Other { children } => SpecPlan::Other { children: plans_view(children@) },
        }
    }
}

/// The views of a sequence of plan nodes, element by element.
pub open spec fn plans_view(ps: Seq<LogicalPlan>) -> Seq<SpecPlan>
    decreases ps,
{
    if ps.len() == 0 {
        Seq::<SpecPlan>::empty()
    } else {
        seq![ps[0]@] + plans_view(ps.subrange(1, ps.len() as int))
    }
}

/// `plans_view` is the element-wise view.
pub proof fn lemma_plans_view(ps: Seq<LogicalPlan>)
    ensures
        plans_view(ps).len() == ps.len(),
        forall|i: int| 0 <= i < ps.len() ==> #[trigger] plans_view(ps)[i] == ps[i]@,
    decreases ps.len(),
{
    if ps.len() > 0 {
        let tail = ps.subrange(1, ps.len() as int);
        lemma_plans_view(tail);
        assert(plans_view(ps) == seq![ps[0]@] + plans_view(tail));
        assert forall|i: int| 0 <= i < ps.len() implies #[trigger] plans_view(ps)[i]
            == ps[i]@ by {
            if i == 0 {
                assert(plans_view(ps)[0] == ps[0]@);
            } else {
                assert(plans_view(ps)[i] == plans_view(tail)[i - 1]);
                assert(tail[i - 1] == ps[i]);
            }
        }
    }
}

/// The table scanned beneath `p`: the first table scan met by a depth-first,
/// children-in-order walk toward the leaves, or `None` when the subtree scans
/// no table.  When several scans are reachable (a join beneath a filter), the
/// first one found wins.
pub open spec fn spec_first_table(p: SpecPlan) -> Option<Seq<char>>
    decreases p,
{
    match p {
        SpecPlan::TableScan { table_name } => Option::Some(table_name),
        SpecPlan::Filter { input, .. } => spec_first_table(*input),
        SpecPlan::Other { children } => spec_first_table_in(children),
    }
}

/// The first table scanned beneath any plan of `ps`, in order.
pub open spec fn spec_first_table_in(ps: Seq<SpecPlan>) -> Option<Seq<char>>
    decreases ps,
{
    if ps.len() == 0 {
        Option::None
    } else {
        match spec_first_table(ps[0]) {
            Option::Some(n) => Option::Some(n),
            Option::None => spec_first_table_in(ps.subrange(1, ps.len() as int)),
        }
    }
}

/// A prefix of plans scanning no table does not change the search result.
proof fn lemma_first_table_in_skip(ps: Seq<SpecPlan>, k: int)
    requires
        0 <= k <= ps.len(),
        forall|i: int| 0 <= i < k ==> spec_first_table(#[trigger] ps[i]) is None,
    ensures
        spec_first_table_in(ps) == spec_first_table_in(ps.subrange(k, ps.len() as int)),
    decreases k,
{
    if k == 0 {
        assert(ps.subrange(0, ps.len() as int) =~= ps);
    } else {
        let tail = ps.subrange(1, ps.len() as int);
        lemma_first_table_in_skip(tail, k - 1);
        assert(tail.subrange(k - 1, tail.len() as int) =~= ps.subrange(k, ps.len() as int));
    }
}

/// Walks a plan subtree toward its leaves and records the first table-scan
/// name met, children before parents, stopping at the first hit.
pub struct TableNameVisitor {
    /// The name of the first table scan seen so far, if any, still carrying
    /// its qualifiers.
    pub name: Option<String>,
}

impl TableNameVisitor {
    /// A fresh visitor that has seen no table scan yet.
    pub fn new() -> (r: Self)
        ensures
            r.name is None,
    {
        TableNameVisitor { name: Option::None }
    }

    /// Visits the subtree rooted at `plan`; afterwards `self.name` holds the
    /// first table-scan name of the subtree, or `None` when it has none.
    #[verifier::loop_isolation(false)]
    pub fn visit(&mut self, plan: &LogicalPlan)
        requires
            old(self).name is None,
        ensures
            match spec_first_table(plan@) {
                Option::Some(n) => final(self).name matches Option::Some(s) && s@ == n,
                Option::None => final(self).name is None,
            },
        decreases *plan,
    {
        match plan {
            LogicalPlan::TableScan { table_name } => {
                self.name = Option::Some(table_name.clone());
            },
            LogicalPlan::Filter { input, .. } => {
                self.visit(input);
            },
            LogicalPlan::Other { children } => {
                proof {
                    lemma_plans_view(children@);
                }
                let ghost views = plans_view(children@);
                let mut i: usize = 0;
                while i < children.len()
                    invariant
                        0 <= i <= children.len(),
                        self.name is None,
                        forall|j: int| 0 <= j < i ==> spec_first_table(#[trigger] views[j]) is None,
                    decreases children.len() - i,
                {
                    self.visit(&children[i]);
                    match &self.name {
                        Option::Some(_) => {
                            proof {
                                lemma_first_table_in_skip(views, i as int);
                                assert(views.subrange(i as int, views.len() as int)[0] == views[i as int]);
                            }
                            return ;
                        },
                        Option::None => {},
                    }
                    i = i + 1;
                }
                proof {
                    lemma_first_table_in_skip(views, views.len() as int);
                    assert(views.subrange(views.len() as int, views.len() as int) =~= Seq::<SpecPlan>::empty());
                }
            },
        }
    }
}

} // verus!
