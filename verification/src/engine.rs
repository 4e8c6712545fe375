//! Expressions as the query engine takes them.
//!
//! The scenes write their columns as plain trees. Here a tree becomes an
//! expression of the engine, built by the engine's own functions. Each of those
//! stands behind a small function that says which tree its result is.
use crate::formula::{Formula, Node, Operator};
use crate::plan::{Output, Plan, Projection, Rendering, Step, Steps};
use datafusion::common::{DFSchema, ScalarValue};
use datafusion::dataframe::DataFrame;
use datafusion::error::DataFusionError;
use datafusion::logical_expr::{Expr, ExprSchemable};
use vstd::prelude::*;

verus! {

// ---------------------------------------------------------------------------
// The engine's expressions
// ---------------------------------------------------------------------------

/// An expression of the engine.
#[verifier::external_type_specification]
#[verifier::external_body]
pub struct ExExpr(datafusion::logical_expr::Expr);

/// An error of the engine.
#[verifier::external_type_specification]
#[verifier::external_body]
pub struct ExDataFusionError(datafusion::error::DataFusionError);

/// The columns of a table and their types.
#[verifier::external_type_specification]
#[verifier::external_body]
pub struct ExDFSchema(datafusion::common::DFSchema);

/// A table of the engine: a query that has not been carried out yet.
#[verifier::external_type_specification]
#[verifier::external_body]
pub struct ExDataFrame(datafusion::dataframe::DataFrame);

/// The tree of an expression of the engine, if it is of the kinds that occur
/// here. A column goes by its quoted flat name: the table if there is one and
/// the column's name, each in quotes where it needs them.
pub uninterp spec fn tree(expr: Expr) -> Option<Node>;

/// The column that a text stands for, by its quoted flat name: the text is read
/// as SQL, where names without quotes are in lower case.
pub uninterp spec fn reference(text: Seq<char>) -> Seq<char>;

/// What a column can be converted to an unsigned integer of 32 bits from.
pub enum Kind {
    /// It is one already.
    UInt32,
    /// From another type, by a conversion.
    Convertible,
    /// From a type for which there is no conversion.
    Other,
}

/// The columns of a table that a reference finds, by their quoted flat names.
pub uninterp spec fn kinds(schema: DFSchema) -> Map<Seq<char>, Kind>;

/// Whether a text consists of small letters, digits and underscores, and does
/// not begin with a digit.
pub open spec fn is_plain(text: Seq<char>) -> bool {
    &&& text.len() > 0
    &&& is_small_letter(text[0]) || text[0] == '_'
    &&& forall|i: int|
        0 <= i < text.len() ==> is_small_letter(#[trigger] text[i]) || '0' <= text[i] <= '9'
            || text[i] == '_'
}

/// Whether a character is one of the letters from `a` to `z`.
pub open spec fn is_small_letter(c: char) -> bool {
    'a' <= c <= 'z'
}

/// What kind of literal a tree is: a number, an index or a truth value, any of
/// them possibly missing; nothing if it is no literal.
pub open spec fn literal_kind(node: Node) -> Option<int> {
    match node {
        Node::Number(_) | Node::NullNumber => Some(0),
        Node::Index(_) | Node::NullIndex => Some(1),
        Node::Truth(_) => Some(2),
        _ => None,
    }
}

/// Whether two trees can be the two outcomes of a case: not two literals of
/// different kinds.
pub open spec fn can_be_outcomes(value: Node, otherwise: Node) -> bool {
    literal_kind(value) is Some && literal_kind(otherwise) is Some ==> literal_kind(value)
        == literal_kind(otherwise)
}

/// Whether a table has the column and it can be converted.
pub open spec fn can_convert(table: Map<Seq<char>, Kind>, column: Seq<char>) -> bool {
    table.contains_key(column) && table[column] !is Other
}

/// The column of a table as an unsigned integer of 32 bits.
pub open spec fn conversion(table: Map<Seq<char>, Kind>, column: Seq<char>) -> Node {
    if table[column] is UInt32 {
        Node::Column(column)
    } else {
        Node::Converted(Box::new(Node::Column(column)))
    }
}

/// `datafusion::logical_expr::col`: the column that the text stands for. A plain text
/// stands for the column of that name.
#[verifier::external_body]
fn engine_column(name: &str) -> (expr: Expr)
    ensures
        tree(expr) == Some(Node::Column(reference(name@))),
        is_plain(name@) ==> tree(expr) == Some(Node::Column(name@)),
{
    datafusion::logical_expr::col(name)
}

/// `datafusion::logical_expr::lit` of a `ScalarValue::Float64`: the number with that bit
/// pattern, which an arrow array of one element makes of it.
#[verifier::external_body]
fn engine_number(bits: u64) -> (expr: Expr)
    ensures
        tree(expr) == Some(Node::Number(bits)),
{
    let buffer = datafusion::arrow::buffer::Buffer::from_vec(vec![bits]);
    let values = datafusion::arrow::buffer::ScalarBuffer::new(buffer, 0, 1);
    let number = datafusion::arrow::array::Float64Array::new(values, None).value(0);
    datafusion::logical_expr::lit(ScalarValue::Float64(Some(number)))
}

/// `datafusion::logical_expr::lit` of an empty `ScalarValue::Float64`: the missing number.
#[verifier::external_body]
fn engine_null_number() -> (expr: Expr)
    ensures
        tree(expr) == Some(Node::NullNumber),
{
    datafusion::logical_expr::lit(ScalarValue::Float64(None))
}

/// `datafusion::logical_expr::lit` of an `i32`: the index.
#[verifier::external_body]
fn engine_index(index: i32) -> (expr: Expr)
    ensures
        tree(expr) == Some(Node::Index(index)),
{
    datafusion::logical_expr::lit(index)
}

/// `datafusion::logical_expr::lit` of an empty `ScalarValue::Int32`: the missing index.
#[verifier::external_body]
fn engine_null_index() -> (expr: Expr)
    ensures
        tree(expr) == Some(Node::NullIndex),
{
    datafusion::logical_expr::lit(ScalarValue::Int32(None))
}

/// `datafusion::logical_expr::lit` of a `bool`: the truth value.
#[verifier::external_body]
fn engine_truth(truth: bool) -> (expr: Expr)
    ensures
        tree(expr) == Some(Node::Truth(truth)),
{
    datafusion::logical_expr::lit(truth)
}

/// The operator `+` on two expressions.
#[verifier::external_body]
fn engine_plus(left: Expr, right: Expr) -> (expr: Expr)
    requires
        tree(left) is Some,
        tree(right) is Some,
    ensures
        tree(expr) == Some(tree(left)->Some_0.plus(tree(right)->Some_0)),
{
    left + right
}

/// The operator `-` on two expressions.
#[verifier::external_body]
fn engine_minus(left: Expr, right: Expr) -> (expr: Expr)
    requires
        tree(left) is Some,
        tree(right) is Some,
    ensures
        tree(expr) == Some(tree(left)->Some_0.minus(tree(right)->Some_0)),
{
    left - right
}

/// The operator `*` on two expressions.
#[verifier::external_body]
fn engine_times(left: Expr, right: Expr) -> (expr: Expr)
    requires
        tree(left) is Some,
        tree(right) is Some,
    ensures
        tree(expr) == Some(tree(left)->Some_0.times(tree(right)->Some_0)),
{
    left * right
}

/// The operator `/` on two expressions.
#[verifier::external_body]
fn engine_over(left: Expr, right: Expr) -> (expr: Expr)
    requires
        tree(left) is Some,
        tree(right) is Some,
    ensures
        tree(expr) == Some(tree(left)->Some_0.over(tree(right)->Some_0)),
{
    left / right
}

/// `Expr::lt` on two expressions.
#[verifier::external_body]
fn engine_lt(left: Expr, right: Expr) -> (expr: Expr)
    requires
        tree(left) is Some,
        tree(right) is Some,
    ensures
        tree(expr) == Some(tree(left)->Some_0.lt(tree(right)->Some_0)),
{
    left.lt(right)
}

/// `Expr::gt` on two expressions.
#[verifier::external_body]
fn engine_gt(left: Expr, right: Expr) -> (expr: Expr)
    requires
        tree(left) is Some,
        tree(right) is Some,
    ensures
        tree(expr) == Some(tree(left)->Some_0.gt(tree(right)->Some_0)),
{
    left.gt(right)
}

/// `Expr::gt_eq` on two expressions.
#[verifier::external_body]
fn engine_gt_eq(left: Expr, right: Expr) -> (expr: Expr)
    requires
        tree(left) is Some,
        tree(right) is Some,
    ensures
        tree(expr) == Some(tree(left)->Some_0.gt_eq(tree(right)->Some_0)),
{
    left.gt_eq(right)
}

/// `Expr::eq` on two expressions.
#[verifier::external_body]
fn engine_equals(left: Expr, right: Expr) -> (expr: Expr)
    requires
        tree(left) is Some,
        tree(right) is Some,
    ensures
        tree(expr) == Some(tree(left)->Some_0.equals(tree(right)->Some_0)),
{
    left.eq(right)
}

/// `Expr::and` on two expressions.
#[verifier::external_body]
fn engine_and(left: Expr, right: Expr) -> (expr: Expr)
    requires
        tree(left) is Some,
        tree(right) is Some,
    ensures
        tree(expr) == Some(tree(left)->Some_0.and(tree(right)->Some_0)),
{
    left.and(right)
}

/// `Expr::or` on two expressions.
#[verifier::external_body]
fn engine_or(left: Expr, right: Expr) -> (expr: Expr)
    requires
        tree(left) is Some,
        tree(right) is Some,
    ensures
        tree(expr) == Some(tree(left)->Some_0.or(tree(right)->Some_0)),
{
    left.or(right)
}

/// `Expr::is_null` on an expression.
#[verifier::external_body]
fn engine_is_null(inner: Expr) -> (expr: Expr)
    requires
        tree(inner) is Some,
    ensures
        tree(expr) == Some(tree(inner)->Some_0.is_null()),
{
    inner.is_null()
}

/// `Expr::is_not_null` on an expression.
#[verifier::external_body]
fn engine_is_not_null(inner: Expr) -> (expr: Expr)
    requires
        tree(inner) is Some,
    ensures
        tree(expr) == Some(tree(inner)->Some_0.is_not_null()),
{
    inner.is_not_null()
}

/// `datafusion::functions::math::expr_fn::sqrt`: the call of that function on an expression.
#[verifier::external_body]
fn engine_sqrt(inner: Expr) -> (expr: Expr)
    requires
        tree(inner) is Some,
    ensures
        tree(expr) == Some(tree(inner)->Some_0.sqrt()),
{
    datafusion::functions::math::expr_fn::sqrt(inner)
}

/// `datafusion::functions::math::expr_fn::abs`: the call of that function on an expression.
#[verifier::external_body]
fn engine_abs(inner: Expr) -> (expr: Expr)
    requires
        tree(inner) is Some,
    ensures
        tree(expr) == Some(tree(inner)->Some_0.abs()),
{
    datafusion::functions::math::expr_fn::abs(inner)
}

/// `datafusion::functions::math::expr_fn::power`: the call of that function on
/// two expressions.
#[verifier::external_body]
fn engine_power(base: Expr, exponent: Expr) -> (expr: Expr)
    requires
        tree(base) is Some,
        tree(exponent) is Some,
    ensures
        tree(expr) == Some(tree(base)->Some_0.power(tree(exponent)->Some_0)),
{
    datafusion::functions::math::expr_fn::power(base, exponent)
}

/// `datafusion::logical_expr::case`, `CaseBuilder::when` with the literal `true`, and
/// `CaseBuilder::otherwise`: the case, or an error if the two outcomes are
/// literals of different types.
#[verifier::external_body]
fn engine_case(
    condition: Expr,
    value: Expr,
    otherwise: Expr,
) -> (expr: Result<Expr, DataFusionError>)
    requires
        tree(condition) is Some,
        tree(value) is Some,
        tree(otherwise) is Some,
    ensures
        expr is Ok <==> can_be_outcomes(tree(value)->Some_0, tree(otherwise)->Some_0),
        expr matches Ok(expr) ==> tree(expr) == Some(
            tree(condition)->Some_0.case(tree(value)->Some_0, tree(otherwise)->Some_0),
        ),
{
    let mut builder = datafusion::logical_expr::case(condition);
    builder.when(datafusion::logical_expr::lit(true), value).otherwise(otherwise)
}

/// `ExprSchemable::cast_to` of a column to `DataType::UInt32`: the column itself
/// if that is its type, else a conversion; an error if the table has no such
/// column or there is no conversion.
#[verifier::external_body]
fn engine_convert(column: Expr, schema: &DFSchema) -> (expr: Result<Expr, DataFusionError>)
    requires
        tree(column) matches Some(Node::Column(_)),
    ensures
        expr is Ok <==> can_convert(kinds(*schema), tree(column)->Some_0->Column_0),
        expr matches Ok(expr) ==> tree(expr) == Some(
            conversion(kinds(*schema), tree(column)->Some_0->Column_0),
        ),
{
    column.cast_to(&datafusion::arrow::datatypes::DataType::UInt32, schema)
}

/// `Expr::alias`: the expression under that name.
#[verifier::external_body]
fn engine_named(inner: Expr, name: &str) -> (expr: Expr)
    requires
        tree(inner) is Some,
    ensures
        tree(expr) == Some(Node::Named(Box::new(tree(inner)->Some_0), name@)),
{
    inner.alias(name)
}

/// What `DataFrame::with_column` makes of a table, a name and an expression;
/// nothing where it is an error.
pub uninterp spec fn extended(table: DataFrame, name: Seq<char>, expr: Expr) -> Option<DataFrame>;

/// What `DataFrame::select` makes of a table and expressions; nothing where it is
/// an error.
pub uninterp spec fn narrowed(table: DataFrame, exprs: Seq<Expr>) -> Option<DataFrame>;

/// The columns of a table, as `DataFrame::schema` tells them.
pub uninterp spec fn schema_of(table: DataFrame) -> DFSchema;

/// `DataFrame::with_column`: the table with one column more, which takes the place
/// of one of the same name. Which tables, names and expressions the engine accepts
/// is not stated.
#[verifier::external_body]
fn engine_with_column(table: DataFrame, name: &str, expr: Expr) -> (more: Result<
    DataFrame,
    DataFusionError,
>)
    ensures
        match more {
            Ok(more) => extended(table, name@, expr) == Some(more),
            Err(_) => extended(table, name@, expr) is None,
        },
{
    table.with_column(name, expr)
}

/// `DataFrame::select`: the table of the values of those expressions. Which ones
/// the engine accepts is not stated.
#[verifier::external_body]
fn engine_select(table: DataFrame, exprs: Vec<Expr>) -> (less: Result<DataFrame, DataFusionError>)
    ensures
        match less {
            Ok(less) => narrowed(table, exprs@) == Some(less),
            Err(_) => narrowed(table, exprs@) is None,
        },
{
    table.select(exprs)
}

/// `DataFrame::schema`: the columns of the table.
#[verifier::external_body]
fn engine_schema(table: &DataFrame) -> (schema: DFSchema)
    ensures
        schema == schema_of(*table),
{
    table.schema().clone()
}

// ---------------------------------------------------------------------------
// From trees to expressions
// ---------------------------------------------------------------------------

/// What the engine did not accept.
#[derive(Debug)]
pub enum EngineError {
    /// A case whose outcomes are literals of different types.
    Case(DataFusionError),
    /// A result column that is not there or cannot be converted.
    Column(DataFusionError),
    /// A column that cannot be added to the table.
    Step(DataFusionError),
    /// Result columns that cannot be taken from the table.
    Selection(DataFusionError),
}

/// Whether no case in the tree has two literals of different kinds as outcomes. That
/// is all that the making of its expression asks; whether the engine can then compute
/// it on a table is another question.
pub open spec fn can_be_lowered(node: Node) -> bool
    decreases node,
{
    match node {
        Node::Binary(_, left, right) => can_be_lowered(*left) && can_be_lowered(*right),
        Node::IsNull(inner) | Node::IsNotNull(inner) | Node::Sqrt(inner) | Node::Abs(inner)
        | Node::Converted(inner) | Node::Named(inner, _) => can_be_lowered(*inner),
        Node::Power(base, exponent) => can_be_lowered(*base) && can_be_lowered(*exponent),
        Node::Case(condition, value, otherwise) => {
            &&& can_be_lowered(*condition)
            &&& can_be_lowered(*value)
            &&& can_be_lowered(*otherwise)
            &&& can_be_outcomes(*value, *otherwise)
        },
        _ => true,
    }
}

/// The tree with every column replaced by the one that its name stands for.
pub open spec fn referenced(node: Node) -> Node
    decreases node,
{
    match node {
        Node::Column(name) => Node::Column(reference(name)),
        Node::Binary(op, left, right) => referenced(*left).binary(op, referenced(*right)),
        Node::IsNull(inner) => referenced(*inner).is_null(),
        Node::IsNotNull(inner) => referenced(*inner).is_not_null(),
        Node::Sqrt(inner) => referenced(*inner).sqrt(),
        Node::Abs(inner) => referenced(*inner).abs(),
        Node::Power(base, exponent) => referenced(*base).power(referenced(*exponent)),
        Node::Case(condition, value, otherwise) => referenced(*condition).case(
            referenced(*value),
            referenced(*otherwise),
        ),
        Node::Converted(inner) => Node::Converted(Box::new(referenced(*inner))),
        Node::Named(inner, name) => Node::Named(Box::new(referenced(*inner)), name),
        _ => node,
    }
}

/// Whether every column in the tree has a plain name.
pub open spec fn has_plain_names(node: Node) -> bool
    decreases node,
{
    match node {
        Node::Column(name) => is_plain(name),
        Node::Binary(_, left, right) => has_plain_names(*left) && has_plain_names(*right),
        Node::IsNull(inner) | Node::IsNotNull(inner) | Node::Sqrt(inner) | Node::Abs(inner)
        | Node::Converted(inner) | Node::Named(inner, _) => has_plain_names(*inner),
        Node::Power(base, exponent) => has_plain_names(*base) && has_plain_names(*exponent),
        Node::Case(condition, value, otherwise) => {
            &&& has_plain_names(*condition)
            &&& has_plain_names(*value)
            &&& has_plain_names(*otherwise)
        },
        _ => true,
    }
}

/// An operator on two expressions.
fn lower_binary(op: Operator, left: Expr, right: Expr) -> (expr: Expr)
    requires
        tree(left) is Some,
        tree(right) is Some,
    ensures
        tree(expr) == Some(tree(left)->Some_0.binary(op, tree(right)->Some_0)),
{
    match op {
        Operator::Plus => engine_plus(left, right),
        Operator::Minus => engine_minus(left, right),
        Operator::Times => engine_times(left, right),
        Operator::Over => engine_over(left, right),
        Operator::Less => engine_lt(left, right),
        Operator::Greater => engine_gt(left, right),
        Operator::GreaterEq => engine_gt_eq(left, right),
        Operator::Equal => engine_equals(left, right),
        Operator::And => engine_and(left, right),
        Operator::Or => engine_or(left, right),
    }
}

/// The engine's expression for a tree. It fails exactly on a case whose outcomes
/// are literals of different kinds. Where all names are plain it is the same tree.
pub fn lower(expr: &Formula) -> (lowered: Result<Expr, EngineError>)
    ensures
        match lowered {
            Ok(lowered) => {
                &&& can_be_lowered(expr@)
                &&& tree(lowered) == Some(referenced(expr@))
                &&& has_plain_names(expr@) ==> tree(lowered) == Some(expr@)
            },
            Err(error) => !can_be_lowered(expr@) && error is Case,
        },
    decreases expr,
{
    match expr {
        Formula::Column(name) => Ok(engine_column(name.as_str())),
        Formula::Number(number) => Ok(engine_number(number.bits)),
        Formula::NullNumber => Ok(engine_null_number()),
        Formula::Index(index) => Ok(engine_index(*index)),
        Formula::NullIndex => Ok(engine_null_index()),
        Formula::Truth(truth) => Ok(engine_truth(*truth)),
        Formula::Binary(op, left, right) => {
            let left: Expr = match lower(left) {
                Ok(left) => left,
                Err(error) => return Err(error),
            };
            match lower(right) {
                Ok(right) => Ok(lower_binary(*op, left, right)),
                Err(error) => Err(error),
            }
        },
        Formula::IsNull(inner) => match lower(inner) {
            Ok(inner) => Ok(engine_is_null(inner)),
            Err(error) => Err(error),
        },
        Formula::IsNotNull(inner) => match lower(inner) {
            Ok(inner) => Ok(engine_is_not_null(inner)),
            Err(error) => Err(error),
        },
        Formula::Sqrt(inner) => match lower(inner) {
            Ok(inner) => Ok(engine_sqrt(inner)),
            Err(error) => Err(error),
        },
        Formula::Abs(inner) => match lower(inner) {
            Ok(inner) => Ok(engine_abs(inner)),
            Err(error) => Err(error),
        },
        Formula::Power(base, exponent) => {
            let base: Expr = match lower(base) {
                Ok(base) => base,
                Err(error) => return Err(error),
            };
            match lower(exponent) {
                Ok(exponent) => Ok(engine_power(base, exponent)),
                Err(error) => Err(error),
            }
        },
        Formula::Case(condition, value, otherwise) => {
            let condition: Expr = match lower(condition) {
                Ok(condition) => condition,
                Err(error) => return Err(error),
            };
            let value: Expr = match lower(value) {
                Ok(value) => value,
                Err(error) => return Err(error),
            };
            let otherwise: Expr = match lower(otherwise) {
                Ok(otherwise) => otherwise,
                Err(error) => return Err(error),
            };
            match engine_case(condition, value, otherwise) {
                Ok(expr) => Ok(expr),
                Err(error) => Err(EngineError::Case(error)),
            }
        },
    }
}

/// A result column of a table.
pub open spec fn selection(table: Map<Seq<char>, Kind>, output: (Seq<char>, Seq<char>)) -> Node {
    Node::Named(Box::new(conversion(table, reference(output.0))), output.1)
}

/// The engine's expressions for the result columns of a table. It fails exactly
/// where a column is not there or cannot be converted.
pub fn select(
    projection: &Projection,
    schema: &DFSchema,
) -> (selected: Result<Vec<Expr>, EngineError>)
    ensures
        match selected {
            Ok(selected) => {
                &&& selected.len() == projection@.len()
                &&& forall|i: int|
                    0 <= i < projection@.len() ==> can_convert(
                        kinds(*schema),
                        reference(projection@[i].0),
                    ) && tree(#[trigger] selected@[i]) == Some(
                        selection(kinds(*schema), projection@[i]),
                    )
            },
            Err(error) => error is Column && exists|i: int|
                0 <= i < projection@.len() && !can_convert(
                    kinds(*schema),
                    reference((#[trigger] projection@[i]).0),
                ),
        },
{
    let mut selected: Vec<Expr> = Vec::new();
    let mut i: usize = 0;
    while i < projection.outputs.len()
        invariant
            i <= projection.outputs.len(),
            selected.len() == i,
            forall|j: int|
                0 <= j < i ==> can_convert(kinds(*schema), reference(projection@[j].0)) && tree(
                    #[trigger] selected@[j],
                ) == Some(selection(kinds(*schema), projection@[j])),
        decreases projection.outputs.len() - i,
    {
        let output: &Output = &projection.outputs[i];
        assert(projection@[i as int] == output@);
        match engine_convert(engine_column(output.source.as_str()), schema) {
            Ok(converted) => {
                selected.push(engine_named(converted, output.name.as_str()));
            },
            Err(error) => {
                return Err(EngineError::Column(error));
            },
        }
        i = i + 1;
    }
    Ok(selected)
}

// ---------------------------------------------------------------------------
// From plans to tables
// ---------------------------------------------------------------------------

/// Whether those are the engine's expressions for the columns of a plan.
pub open spec fn are_lowered(exprs: Seq<Expr>, steps: Steps) -> bool {
    &&& exprs.len() == steps.len()
    &&& forall|i: int|
        0 <= i < steps.len() ==> tree(#[trigger] exprs[i]) == Some(referenced(steps[i].1))
}

/// The table after the columns of a plan have been added one by one; nothing if
/// the engine refuses one.
pub open spec fn extended_by(table: DataFrame, steps: Steps, exprs: Seq<Expr>) -> Option<DataFrame>
    decreases steps.len(),
{
    if steps.len() == 0 {
        Some(table)
    } else {
        match extended_by(table, steps.drop_last(), exprs.drop_last()) {
            Some(before) => extended(before, steps.last().0, exprs.last()),
            None => None,
        }
    }
}

/// Whether those are the engine's expressions for the result columns of a table.
pub open spec fn are_selected(
    exprs: Seq<Expr>,
    table: DataFrame,
    outputs: Seq<(Seq<char>, Seq<char>)>,
) -> bool {
    &&& exprs.len() == outputs.len()
    &&& forall|i: int|
        0 <= i < outputs.len() ==> tree(#[trigger] exprs[i]) == Some(
            selection(kinds(schema_of(table)), outputs[i]),
        )
}

/// Whether a table is another one with the columns of a plan.
pub open spec fn is_extension(more: DataFrame, table: DataFrame, steps: Steps) -> bool {
    exists|exprs: Seq<Expr>| #[trigger]
        are_lowered(exprs, steps) && extended_by(table, steps, exprs) == Some(more)
}

/// Whether a table holds the result columns of another one.
pub open spec fn is_narrowing(
    less: DataFrame,
    table: DataFrame,
    outputs: Seq<(Seq<char>, Seq<char>)>,
) -> bool {
    exists|exprs: Seq<Expr>| #[trigger]
        are_selected(exprs, table, outputs) && narrowed(table, exprs) == Some(less)
}

/// Adds the columns of a plan to a table, one by one. It fails exactly where the
/// engine refuses an expression or a column.
pub fn add_columns(table: DataFrame, plan: &Plan) -> (result: Result<DataFrame, EngineError>)
    ensures
        match result {
            Ok(more) => {
                &&& forall|i: int| 0 <= i < plan@.len() ==> can_be_lowered((#[trigger] plan@[i]).1)
                &&& is_extension(more, table, plan@)
            },
            Err(EngineError::Case(_)) => exists|i: int|
                0 <= i < plan@.len() && !can_be_lowered((#[trigger] plan@[i]).1),
            Err(EngineError::Step(_)) => exists|n: int, exprs: Seq<Expr>|
                0 <= n <= plan@.len() && #[trigger] are_lowered(exprs, plan@.take(n))
                    && extended_by(table, plan@.take(n), exprs) is None,
            Err(_) => false,
        },
{
    let ghost mut exprs: Seq<Expr> = Seq::empty();
    let mut more: DataFrame = table;
    let mut i: usize = 0;
    assert(plan@.take(0) =~= Steps::empty());
    while i < plan.steps.len()
        invariant
            i <= plan.steps.len(),
            are_lowered(exprs, plan@.take(i as int)),
            extended_by(table, plan@.take(i as int), exprs) == Some(more),
            forall|j: int| 0 <= j < i ==> can_be_lowered((#[trigger] plan@[j]).1),
        decreases plan.steps.len() - i,
    {
        let step: &Step = &plan.steps[i];
        assert(plan@[i as int] == step@);
        let expr: Expr = match lower(&step.expr) {
            Ok(expr) => expr,
            Err(error) => return Err(error),
        };
        proof {
            let before = exprs;
            exprs = before.push(expr);
            assert(exprs.drop_last() =~= before);
            assert(plan@.take(i + 1).drop_last() =~= plan@.take(i as int));
            assert(plan@.take(i + 1).last() == step@);
            assert(are_lowered(exprs, plan@.take(i + 1)));
        }
        more = match engine_with_column(more, step.name.as_str(), expr) {
            Ok(more) => more,
            Err(error) => {
                assert(extended_by(table, plan@.take(i + 1), exprs) is None);
                return Err(EngineError::Step(error));
            },
        };
        i = i + 1;
    }
    assert(plan@.take(i as int) =~= plan@);
    Ok(more)
}

/// Takes the result columns from a table. It fails exactly where a column is not
/// there or cannot be converted, or the engine refuses the selection.
pub fn keep_columns(table: DataFrame, projection: &Projection) -> (result: Result<
    DataFrame,
    EngineError,
>)
    ensures
        match result {
            Ok(less) => is_narrowing(less, table, projection@),
            Err(EngineError::Column(_)) => exists|i: int|
                0 <= i < projection@.len() && !can_convert(
                    kinds(schema_of(table)),
                    reference((#[trigger] projection@[i]).0),
                ),
            Err(EngineError::Selection(_)) => exists|exprs: Seq<Expr>| #[trigger]
                are_selected(exprs, table, projection@) && narrowed(table, exprs) is None,
            Err(_) => false,
        },
{
    let schema: DFSchema = engine_schema(&table);
    let exprs: Vec<Expr> = match select(projection, &schema) {
        Ok(exprs) => exprs,
        Err(error) => return Err(error),
    };
    assert(are_selected(exprs@, table, projection@));
    match engine_select(table, exprs) {
        Ok(less) => Ok(less),
        Err(error) => Err(EngineError::Selection(error)),
    }
}

/// The table of pixels that a scene asks for, made of the table that its query
/// gives.
pub fn draw(table: DataFrame, rendering: &Rendering) -> (result: Result<DataFrame, EngineError>)
    ensures
        match (result, rendering.projection) {
            (Ok(drawn), Some(projection)) => exists|more: DataFrame| #[trigger]
                is_extension(more, table, rendering.plan@) && is_narrowing(
                    drawn,
                    more,
                    projection@,
                ),
            (Ok(drawn), None) => is_extension(drawn, table, rendering.plan@),
            (Err(EngineError::Case(_)), _) => exists|i: int|
                0 <= i < rendering.plan@.len() && !can_be_lowered((#[trigger] rendering.plan@[i]).1),
            (Err(EngineError::Step(_)), _) => exists|n: int, exprs: Seq<Expr>|
                0 <= n <= rendering.plan@.len() && #[trigger] are_lowered(
                    exprs,
                    rendering.plan@.take(n),
                ) && extended_by(table, rendering.plan@.take(n), exprs) is None,
            (Err(EngineError::Column(_)), Some(projection)) => exists|more: DataFrame, i: int|
                #![trigger is_extension(more, table, rendering.plan@), projection@[i]]
                is_extension(more, table, rendering.plan@) && 0 <= i < projection@.len()
                    && !can_convert(kinds(schema_of(more)), reference(projection@[i].0)),
            (Err(EngineError::Selection(_)), Some(projection)) => exists|
                more: DataFrame,
                exprs: Seq<Expr>,
            |
                #![trigger is_extension(more, table, rendering.plan@), narrowed(more, exprs)]
                is_extension(more, table, rendering.plan@) && are_selected(
                    exprs,
                    more,
                    projection@,
                ) && narrowed(more, exprs) is None,
            (Err(_), None) => false,
        },
{
    let more: DataFrame = match add_columns(table, &rendering.plan) {
        Ok(more) => more,
        Err(error) => return Err(error),
    };
    match &rendering.projection {
        Some(projection) => keep_columns(more, projection),
        None => Ok(more),
    }
}

} // verus!
