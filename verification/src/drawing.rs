//! How a plan becomes a table: one column after the other, and then the columns of the
//! result.
use crate::engine::{
    are_lowered, are_selected, extended, extended_by, is_extension, is_narrowing, kinds, narrowed,
    reference, referenced, schema_of, tree,
};
use crate::formula::Node;
use crate::meaning::{Arithmetic, Row};
use crate::plan::Steps;
use datafusion::logical_expr::Expr;
use datafusion::prelude::DataFrame;
use vstd::prelude::*;

verus! {

/// Whether tables follow one another by a plan: each has, besides the columns of the
/// one before, the next column of the plan under its name.
pub open spec fn follow(tables: Seq<DataFrame>, exprs: Seq<Expr>, steps: Steps) -> bool {
    &&& tables.len() == steps.len() + 1
    &&& exprs.len() == steps.len()
    &&& forall|i: int|
        0 <= i < steps.len() ==> extended(
            tables[i],
            (#[trigger] steps[i]).0,
            exprs[i],
        ) == Some(tables[i + 1]) && tree(exprs[i]) == Some(referenced(steps[i].1))
}

/// A table that is extended by a plan has all the columns of the plan, added in order,
/// each made of its own formula.
pub proof fn law_columns_in_order(more: DataFrame, table: DataFrame, steps: Steps)
    requires
        is_extension(more, table, steps),
    ensures
        exists|tables: Seq<DataFrame>, exprs: Seq<Expr>| #[trigger]
            follow(tables, exprs, steps) && tables[0] == table && tables[steps.len() as int]
                == more,
{
    let exprs = choose|exprs: Seq<Expr>| #[trigger]
        are_lowered(exprs, steps) && extended_by(table, steps, exprs) == Some(more);
    let tables = lemma_follow(table, steps, exprs, more);
    assert(follow(tables, exprs, steps));
}

proof fn lemma_follow(
    table: DataFrame,
    steps: Steps,
    exprs: Seq<Expr>,
    more: DataFrame,
) -> (tables: Seq<DataFrame>)
    requires
        are_lowered(exprs, steps),
        extended_by(table, steps, exprs) == Some(more),
    ensures
        follow(tables, exprs, steps),
        tables[0] == table,
        tables[steps.len() as int] == more,
    decreases steps.len(),
{
    if steps.len() == 0 {
        seq![more]
    } else {
        let (start, firsts) = (steps.drop_last(), exprs.drop_last());
        let before = extended_by(table, start, firsts)->Some_0;
        assert(are_lowered(firsts, start)) by {
            assert forall|i: int| 0 <= i < start.len() implies tree(#[trigger] firsts[i]) == Some(
                referenced(start[i].1),
            ) by {
                assert(firsts[i] == exprs[i] && start[i] == steps[i]);
            }
        }
        let earlier = lemma_follow(table, start, firsts, before);
        let tables = earlier.push(more);
        let n = steps.len() - 1;
        assert forall|i: int| 0 <= i < steps.len() implies extended(
            tables[i],
            (#[trigger] steps[i]).0,
            exprs[i],
        ) == Some(tables[i + 1]) && tree(exprs[i]) == Some(referenced(steps[i].1)) by {
            assert(tree(exprs[i]) == Some(referenced(steps[i].1)));
            if i < n {
                assert(start[i] == steps[i] && firsts[i] == exprs[i]);
                assert(tables[i] == earlier[i] && tables[i + 1] == earlier[i + 1]);
            } else {
                assert(tables[i] == before && tables[i + 1] == more);
                assert(steps[i] == steps.last() && exprs[i] == exprs.last());
            }
        }
        tables
    }
}

/// Whether a row has under the engine's names what another has under the plain ones.
pub open spec fn is_renamed(renamed: Row, row: Row) -> bool {
    forall|name: Seq<char>|
        #![trigger row.contains_key(name)]
        #![trigger reference(name)]
        renamed.contains_key(reference(name)) == row.contains_key(name) && (row.contains_key(name)
            ==> renamed[reference(name)] == row[name])
}

/// An expression of the engine computes what the formula says: only the names of its
/// columns are those that the engine knows them by.
pub proof fn law_only_names_change(m: Arithmetic, node: Node, row: Row, renamed: Row)
    requires
        is_renamed(renamed, row),
    ensures
        m.value(referenced(node), renamed) == m.value(node, row),
    decreases node,
{
    match node {
        Node::Column(name) => {
            assert(renamed.contains_key(reference(name)) == row.contains_key(name));
        },
        Node::Binary(_, left, right) => {
            law_only_names_change(m, *left, row, renamed);
            law_only_names_change(m, *right, row, renamed);
        },
        Node::IsNull(inner) | Node::IsNotNull(inner) | Node::Sqrt(inner) | Node::Abs(inner)
        | Node::Named(inner, _) => {
            law_only_names_change(m, *inner, row, renamed);
        },
        Node::Power(base, exponent) => {
            law_only_names_change(m, *base, row, renamed);
            law_only_names_change(m, *exponent, row, renamed);
        },
        Node::Case(condition, value, otherwise) => {
            law_only_names_change(m, *condition, row, renamed);
            law_only_names_change(m, *value, row, renamed);
            law_only_names_change(m, *otherwise, row, renamed);
        },
        _ => {},
    }
}

/// Whether an expression is a column of a table as an unsigned integer, converted if it
/// holds anything else, under a name.
pub open spec fn is_taken_from(
    expr: Expr,
    table: DataFrame,
    source: Seq<char>,
    name: Seq<char>,
) -> bool {
    let own = Node::Column(reference(source));
    tree(expr) == Some(
        Node::Named(
            Box::new(
                if kinds(schema_of(table))[reference(source)] is UInt32 {
                    own
                } else {
                    Node::Converted(Box::new(own))
                },
            ),
            name,
        ),
    )
}

/// The result has a column for each that is asked for, in order, taken from its source
/// as an unsigned integer, under its name.
pub proof fn law_result_in_order(
    less: DataFrame,
    table: DataFrame,
    outputs: Seq<(Seq<char>, Seq<char>)>,
)
    requires
        is_narrowing(less, table, outputs),
    ensures
        exists|exprs: Seq<Expr>| #[trigger]
            narrowed(table, exprs) == Some(less) && exprs.len() == outputs.len() && forall|i: int|
                0 <= i < outputs.len() ==> is_taken_from(
                    #[trigger] exprs[i],
                    table,
                    outputs[i].0,
                    outputs[i].1,
                ),
{
    let exprs = choose|exprs: Seq<Expr>| #[trigger]
        are_selected(exprs, table, outputs) && narrowed(table, exprs) == Some(less);
    assert(narrowed(table, exprs) == Some(less));
}

} // verus!
