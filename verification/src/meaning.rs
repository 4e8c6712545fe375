//! What trees mean: the sort of their values, and the values themselves in a row
//! of the pixel table.
use crate::formula::{Node, Operator};
use crate::number::SIGN;
use crate::plan::Steps;
use vstd::prelude::*;

verus! {

// ---------------------------------------------------------------------------
// Sorts
// ---------------------------------------------------------------------------

/// What the values of a column are. Any value may also be missing.
pub enum Sort {
    Number,
    Index,
    Truth,
}

/// The columns of a table with their sorts.
pub type Sorts = Map<Seq<char>, Sort>;

/// The sort of an operator's value for operands of those sorts, if it takes them.
pub open spec fn operator_sort(op: Operator, left: Sort, right: Sort) -> Option<Sort> {
    match op {
        Operator::Plus | Operator::Minus | Operator::Times | Operator::Over => if left is Number
            && right is Number {
            Some(Sort::Number)
        } else {
            None
        },
        Operator::Less | Operator::Greater | Operator::GreaterEq => if left is Number
            && right is Number {
            Some(Sort::Truth)
        } else {
            None
        },
        Operator::Equal => if left == right {
            Some(Sort::Truth)
        } else {
            None
        },
        Operator::And | Operator::Or => if left is Truth && right is Truth {
            Some(Sort::Truth)
        } else {
            None
        },
    }
}

/// The sort of a tree's values in a table with those columns; nothing if a column
/// is not there, or a value of another sort would be needed somewhere.
pub open spec fn sort_of(node: Node, sorts: Sorts) -> Option<Sort>
    decreases node,
{
    match node {
        Node::Column(name) => if sorts.contains_key(name) {
            Some(sorts[name])
        } else {
            None
        },
        Node::Number(_) | Node::NullNumber => Some(Sort::Number),
        Node::Index(_) | Node::NullIndex => Some(Sort::Index),
        Node::Truth(_) => Some(Sort::Truth),
        Node::Binary(op, left, right) => match (sort_of(*left, sorts), sort_of(*right, sorts)) {
            (Some(l), Some(r)) => operator_sort(op, l, r),
            _ => None,
        },
        Node::IsNull(inner) | Node::IsNotNull(inner) => if sort_of(*inner, sorts) is Some {
            Some(Sort::Truth)
        } else {
            None
        },
        Node::Sqrt(inner) | Node::Abs(inner) => if sort_of(*inner, sorts) == Some(Sort::Number) {
            Some(Sort::Number)
        } else {
            None
        },
        Node::Power(base, exponent) => if sort_of(*base, sorts) == Some(Sort::Number) && sort_of(
            *exponent,
            sorts,
        ) == Some(Sort::Number) {
            Some(Sort::Number)
        } else {
            None
        },
        Node::Case(condition, value, otherwise) => if sort_of(*condition, sorts) == Some(
            Sort::Truth,
        ) && sort_of(*value, sorts) == sort_of(*otherwise, sorts) {
            sort_of(*value, sorts)
        } else {
            None
        },
        Node::Converted(_) | Node::Named(_, _) => None,
    }
}

/// Whether a tree's values are numbers.
pub open spec fn is_number(node: Node, sorts: Sorts) -> bool {
    sort_of(node, sorts) == Some(Sort::Number)
}

/// Whether a tree's values are indices.
pub open spec fn is_index(node: Node, sorts: Sorts) -> bool {
    sort_of(node, sorts) == Some(Sort::Index)
}

/// Whether a tree's values are truth values.
pub open spec fn is_truth(node: Node, sorts: Sorts) -> bool {
    sort_of(node, sorts) == Some(Sort::Truth)
}

pub broadcast proof fn lemma_sort_column(name: Seq<char>, sorts: Sorts)
    requires
        sorts.contains_key(name),
    ensures
        #[trigger] sort_of(Node::Column(name), sorts) == Some(sorts[name]),
{
}

pub broadcast proof fn lemma_sort_number(bits: u64, sorts: Sorts)
    ensures
        #[trigger] sort_of(Node::Number(bits), sorts) == Some(Sort::Number),
{
}

pub broadcast proof fn lemma_sort_binary(left: Node, op: Operator, right: Node, sorts: Sorts)
    requires
        sort_of(left, sorts) is Some,
        sort_of(right, sorts) is Some,
    ensures
        #[trigger] sort_of(left.binary(op, right), sorts) == operator_sort(
            op,
            sort_of(left, sorts)->Some_0,
            sort_of(right, sorts)->Some_0,
        ),
{
}

pub broadcast proof fn lemma_sort_is_null(inner: Node, sorts: Sorts)
    requires
        sort_of(inner, sorts) is Some,
    ensures
        #[trigger] sort_of(inner.is_null(), sorts) == Some(Sort::Truth),
{
}

pub broadcast proof fn lemma_sort_is_not_null(inner: Node, sorts: Sorts)
    requires
        sort_of(inner, sorts) is Some,
    ensures
        #[trigger] sort_of(inner.is_not_null(), sorts) == Some(Sort::Truth),
{
}

pub broadcast proof fn lemma_sort_sqrt(inner: Node, sorts: Sorts)
    requires
        sort_of(inner, sorts) == Some(Sort::Number),
    ensures
        #[trigger] sort_of(inner.sqrt(), sorts) == Some(Sort::Number),
{
}

pub broadcast proof fn lemma_sort_abs(inner: Node, sorts: Sorts)
    requires
        sort_of(inner, sorts) == Some(Sort::Number),
    ensures
        #[trigger] sort_of(inner.abs(), sorts) == Some(Sort::Number),
{
}

pub broadcast proof fn lemma_sort_power(base: Node, exponent: Node, sorts: Sorts)
    requires
        sort_of(base, sorts) == Some(Sort::Number),
        sort_of(exponent, sorts) == Some(Sort::Number),
    ensures
        #[trigger] sort_of(base.power(exponent), sorts) == Some(Sort::Number),
{
}

pub broadcast proof fn lemma_sort_case(condition: Node, value: Node, otherwise: Node, sorts: Sorts)
    requires
        sort_of(condition, sorts) == Some(Sort::Truth),
        sort_of(value, sorts) == sort_of(otherwise, sorts),
    ensures
        #[trigger] sort_of(condition.case(value, otherwise), sorts) == sort_of(value, sorts),
{
}

pub broadcast group group_sorts {
    lemma_sort_column,
    lemma_sort_number,
    lemma_sort_binary,
    lemma_sort_is_null,
    lemma_sort_is_not_null,
    lemma_sort_sqrt,
    lemma_sort_abs,
    lemma_sort_power,
    lemma_sort_case,
}

/// In a table with more columns a tree keeps its sort.
pub proof fn lemma_more_columns(node: Node, less: Sorts, more: Sorts)
    requires
        less.submap_of(more),
        sort_of(node, less) is Some,
    ensures
        sort_of(node, more) == sort_of(node, less),
    decreases node,
{
    match node {
        Node::Column(name) => {},
        Node::Binary(_, left, right) => {
            lemma_more_columns(*left, less, more);
            lemma_more_columns(*right, less, more);
        },
        Node::IsNull(inner) | Node::IsNotNull(inner) | Node::Sqrt(inner) | Node::Abs(inner) => {
            lemma_more_columns(*inner, less, more);
        },
        Node::Power(base, exponent) => {
            lemma_more_columns(*base, less, more);
            lemma_more_columns(*exponent, less, more);
        },
        Node::Case(condition, value, otherwise) => {
            lemma_more_columns(*condition, less, more);
            lemma_more_columns(*value, less, more);
            lemma_more_columns(*otherwise, less, more);
        },
        _ => {},
    }
}

// ---------------------------------------------------------------------------
// Sound plans
// ---------------------------------------------------------------------------

/// The names of the columns that a plan adds.
pub open spec fn names(steps: Steps) -> Set<Seq<char>> {
    Set::new(
        |name: Seq<char>| exists|i: int| 0 <= i < steps.len() && (#[trigger] steps[i]).0 == name,
    )
}

/// The table with those columns, whose sorts go by their names.
pub open spec fn table(columns: Set<Seq<char>>, by_name: spec_fn(Seq<char>) -> Sort) -> Sorts {
    Map::new(|name: Seq<char>| columns.contains(name), by_name)
}

/// Whether a plan can be carried out on a table with those columns: each column
/// that it adds is made of columns that are there by then, and has its sort.
pub open spec fn is_sound(
    steps: Steps,
    columns: Set<Seq<char>>,
    by_name: spec_fn(Seq<char>) -> Sort,
) -> bool {
    forall|i: int|
        0 <= i < steps.len() ==> sort_of(
            (#[trigger] steps[i]).1,
            table(columns.union(names(steps.take(i))), by_name),
        ) == Some(by_name(steps[i].0))
}

/// A plan is sound if each of its columns is made of those that are there before.
pub proof fn lemma_sound_at_once(
    steps: Steps,
    columns: Set<Seq<char>>,
    by_name: spec_fn(Seq<char>) -> Sort,
)
    requires
        forall|i: int|
            0 <= i < steps.len() ==> sort_of((#[trigger] steps[i]).1, table(columns, by_name))
                == Some(by_name(steps[i].0)),
    ensures
        is_sound(steps, columns, by_name),
{
    assert forall|i: int| 0 <= i < steps.len() implies sort_of(
        (#[trigger] steps[i]).1,
        table(columns.union(names(steps.take(i))), by_name),
    ) == Some(by_name(steps[i].0)) by {
        lemma_more_columns(
            steps[i].1,
            table(columns, by_name),
            table(columns.union(names(steps.take(i))), by_name),
        );
    }
}

/// Two sound plans one after the other are a sound plan.
pub proof fn lemma_sound_append(
    a: Steps,
    b: Steps,
    columns: Set<Seq<char>>,
    by_name: spec_fn(Seq<char>) -> Sort,
)
    requires
        is_sound(a, columns, by_name),
        is_sound(b, columns.union(names(a)), by_name),
    ensures
        is_sound(a + b, columns, by_name),
        names(a + b) == names(a).union(names(b)),
        columns.union(names(a + b)) == columns.union(names(a)).union(names(b)),
{
    let both = a + b;
    assert forall|i: int| 0 <= i < both.len() implies sort_of(
        (#[trigger] both[i]).1,
        table(columns.union(names(both.take(i))), by_name),
    ) == Some(by_name(both[i].0)) by {
        if i < a.len() {
            assert(both[i] == a[i]);
            assert(both.take(i) =~= a.take(i));
        } else {
            let k = i - a.len();
            assert(both[i] == b[k]);
            lemma_names_append(a, b.take(k));
            assert(both.take(i) =~= a + b.take(k));
            assert(columns.union(names(a)).union(names(b.take(k))) =~= columns.union(
                names(both.take(i)),
            ));
        }
    }
    lemma_names_append(a, b);
    assert(columns.union(names(a + b)) =~= columns.union(names(a)).union(names(b)));
}

/// The names of two plans one after the other.
pub proof fn lemma_names_append(a: Steps, b: Steps)
    ensures
        names(a + b) == names(a).union(names(b)),
{
    let both = a + b;
    assert forall|name: Seq<char>| names(a).union(names(b)).contains(name) implies names(
        both,
    ).contains(name) by {
        if names(a).contains(name) {
            let i = choose|i: int| 0 <= i < a.len() && (#[trigger] a[i]).0 == name;
            assert(both[i].0 == name);
        } else {
            let i = choose|i: int| 0 <= i < b.len() && (#[trigger] b[i]).0 == name;
            assert(both[a.len() + i].0 == name);
        }
    }
    assert forall|name: Seq<char>| names(both).contains(name) implies names(a).union(
        names(b),
    ).contains(name) by {
        let i = choose|i: int| 0 <= i < both.len() && (#[trigger] both[i]).0 == name;
        if i < a.len() {
            assert(a[i].0 == name);
        } else {
            assert(b[i - a.len()].0 == name);
        }
    }
    assert(names(a + b) =~= names(a).union(names(b)));
}

// ---------------------------------------------------------------------------
// Values
// ---------------------------------------------------------------------------

/// A value in a row of the table.
pub enum Value {
    /// A double-precision number, by its bit pattern.
    Number(u64),
    Index(i32),
    Truth(bool),
    Missing,
}

/// A row of the table.
pub type Row = Map<Seq<char>, Value>;

/// What the operations on numbers give, by bit patterns. Nothing is said here of
/// what that is.
pub struct Arithmetic {
    pub plus: spec_fn(u64, u64) -> u64,
    pub minus: spec_fn(u64, u64) -> u64,
    pub times: spec_fn(u64, u64) -> u64,
    pub over: spec_fn(u64, u64) -> u64,
    pub power: spec_fn(u64, u64) -> u64,
    pub sqrt: spec_fn(u64) -> u64,
    pub abs: spec_fn(u64) -> u64,
}

/// The place of a bit pattern in the total order of numbers: the negative ones
/// come first, and any two different patterns are at different places.
pub open spec fn place(bits: u64) -> int {
    if bits >= SIGN {
        SIGN - 1 - bits
    } else {
        bits as int
    }
}

/// Whether one number comes before another, in the total order that the engine
/// compares by.
pub open spec fn below(a: u64, b: u64) -> bool {
    place(a) < place(b)
}

impl Arithmetic {
    /// What an operator gives for two values. An operation on numbers gives a
    /// missing value if either is missing; `And` and `Or` give a truth value
    /// where the one that is there decides.
    pub open spec fn apply(self, op: Operator, left: Value, right: Value) -> Value {
        match (op, left, right) {
            (Operator::Plus, Value::Number(a), Value::Number(b)) => Value::Number(
                (self.plus)(a, b),
            ),
            (Operator::Minus, Value::Number(a), Value::Number(b)) => Value::Number(
                (self.minus)(a, b),
            ),
            (Operator::Times, Value::Number(a), Value::Number(b)) => Value::Number(
                (self.times)(a, b),
            ),
            (Operator::Over, Value::Number(a), Value::Number(b)) => Value::Number(
                (self.over)(a, b),
            ),
            (Operator::Less, Value::Number(a), Value::Number(b)) => Value::Truth(below(a, b)),
            (Operator::Greater, Value::Number(a), Value::Number(b)) => Value::Truth(below(b, a)),
            (Operator::GreaterEq, Value::Number(a), Value::Number(b)) => Value::Truth(!below(a, b)),
            (Operator::Equal, Value::Number(a), Value::Number(b)) => Value::Truth(a == b),
            (Operator::Equal, Value::Index(a), Value::Index(b)) => Value::Truth(a == b),
            (Operator::Equal, Value::Truth(a), Value::Truth(b)) => Value::Truth(a == b),
            (Operator::And, Value::Truth(a), Value::Truth(b)) => Value::Truth(a && b),
            (Operator::And, Value::Truth(false), _) | (Operator::And, _, Value::Truth(false)) =>
                Value::Truth(false),
            (Operator::Or, Value::Truth(a), Value::Truth(b)) => Value::Truth(a || b),
            (Operator::Or, Value::Truth(true), _) | (Operator::Or, _, Value::Truth(true)) =>
                Value::Truth(true),
            _ => Value::Missing,
        }
    }

    /// The value of a tree in a row.
    pub open spec fn value(self, node: Node, row: Row) -> Value
        decreases node,
    {
        match node {
            Node::Column(name) => if row.contains_key(name) {
                row[name]
            } else {
                Value::Missing
            },
            Node::Number(bits) => Value::Number(bits),
            Node::Index(index) => Value::Index(index),
            Node::Truth(truth) => Value::Truth(truth),
            Node::NullNumber | Node::NullIndex => Value::Missing,
            Node::Binary(op, left, right) => self.apply(
                op,
                self.value(*left, row),
                self.value(*right, row),
            ),
            Node::IsNull(inner) => Value::Truth(self.value(*inner, row) is Missing),
            Node::IsNotNull(inner) => Value::Truth(self.value(*inner, row) !is Missing),
            Node::Sqrt(inner) => match self.value(*inner, row) {
                Value::Number(a) => Value::Number((self.sqrt)(a)),
                _ => Value::Missing,
            },
            Node::Abs(inner) => match self.value(*inner, row) {
                Value::Number(a) => Value::Number((self.abs)(a)),
                _ => Value::Missing,
            },
            Node::Power(base, exponent) => match (
                self.value(*base, row),
                self.value(*exponent, row),
            ) {
                (Value::Number(a), Value::Number(b)) => Value::Number((self.power)(a, b)),
                _ => Value::Missing,
            },
            Node::Case(condition, value, otherwise) => if self.value(*condition, row)
                == Value::Truth(true) {
                self.value(*value, row)
            } else {
                self.value(*otherwise, row)
            },
            Node::Converted(_) => Value::Missing,
            Node::Named(inner, _) => self.value(*inner, row),
        }
    }

    /// The row after the columns of a plan have been added.
    pub open spec fn run(self, steps: Steps, row: Row) -> Row
        decreases steps.len(),
    {
        if steps.len() == 0 {
            row
        } else {
            let before = self.run(steps.drop_last(), row);
            before.insert(steps.last().0, self.value(steps.last().1, before))
        }
    }
}

/// Whether a value is of a sort or missing.
pub open spec fn is_of(value: Value, sort: Sort) -> bool {
    match value {
        Value::Number(_) => sort is Number,
        Value::Index(_) => sort is Index,
        Value::Truth(_) => sort is Truth,
        Value::Missing => true,
    }
}

/// Whether a row has the columns of a table, each with a value of its sort or missing.
pub open spec fn fits(row: Row, sorts: Sorts) -> bool {
    forall|name: Seq<char>| #[trigger]
        sorts.contains_key(name) ==> row.contains_key(name) && is_of(row[name], sorts[name])
}

/// The value of a tree is of the tree's sort, or missing.
pub proof fn law_value_is_of_sort(m: Arithmetic, node: Node, row: Row, sorts: Sorts)
    requires
        fits(row, sorts),
        sort_of(node, sorts) is Some,
    ensures
        is_of(m.value(node, row), sort_of(node, sorts)->Some_0),
    decreases node,
{
    match node {
        Node::Binary(_, left, right) => {
            law_value_is_of_sort(m, *left, row, sorts);
            law_value_is_of_sort(m, *right, row, sorts);
        },
        Node::Case(_, value, otherwise) => {
            law_value_is_of_sort(m, *value, row, sorts);
            law_value_is_of_sort(m, *otherwise, row, sorts);
        },
        _ => {},
    }
}

/// Whether two rows have the same values in the columns of a table.
pub open spec fn agree(a: Row, b: Row, sorts: Sorts) -> bool {
    forall|name: Seq<char>| #[trigger]
        sorts.contains_key(name) ==> a.contains_key(name) == b.contains_key(name) && (
        a.contains_key(name) ==> a[name] == b[name])
}

/// The value of a tree depends on the columns that it is made of only.
pub proof fn law_value_depends_on_columns(m: Arithmetic, node: Node, a: Row, b: Row, sorts: Sorts)
    requires
        sort_of(node, sorts) is Some,
        agree(a, b, sorts),
    ensures
        m.value(node, a) == m.value(node, b),
    decreases node,
{
    match node {
        Node::Column(name) => {
            assert(sorts.contains_key(name));
        },
        Node::Binary(_, left, right) => {
            law_value_depends_on_columns(m, *left, a, b, sorts);
            law_value_depends_on_columns(m, *right, a, b, sorts);
        },
        Node::IsNull(inner) | Node::IsNotNull(inner) | Node::Sqrt(inner) | Node::Abs(inner) => {
            law_value_depends_on_columns(m, *inner, a, b, sorts);
        },
        Node::Power(base, exponent) => {
            law_value_depends_on_columns(m, *base, a, b, sorts);
            law_value_depends_on_columns(m, *exponent, a, b, sorts);
        },
        Node::Case(condition, value, otherwise) => {
            law_value_depends_on_columns(m, *condition, a, b, sorts);
            law_value_depends_on_columns(m, *value, a, b, sorts);
            law_value_depends_on_columns(m, *otherwise, a, b, sorts);
        },
        _ => {},
    }
}

/// Two plans one after the other.
pub proof fn lemma_run_append(m: Arithmetic, a: Steps, b: Steps, row: Row)
    ensures
        m.run(a + b, row) == m.run(b, m.run(a, row)),
    decreases b.len(),
{
    if b.len() == 0 {
        assert(a + b =~= a);
    } else {
        assert((a + b).drop_last() =~= a + b.drop_last());
        assert((a + b).last() == b.last());
        lemma_run_append(m, a, b.drop_last(), row);
    }
}

/// A plan leaves the columns that it does not add.
pub proof fn lemma_run_leaves(m: Arithmetic, steps: Steps, row: Row, name: Seq<char>)
    requires
        forall|i: int| 0 <= i < steps.len() ==> (#[trigger] steps[i]).0 != name,
    ensures
        m.run(steps, row).contains_key(name) == row.contains_key(name),
        row.contains_key(name) ==> m.run(steps, row)[name] == row[name],
    decreases steps.len(),
{
    if steps.len() > 0 {
        let before = steps.drop_last();
        assert forall|i: int| 0 <= i < before.len() implies (#[trigger] before[i]).0 != name by {
            assert(before[i] == steps[i]);
        }
        lemma_run_leaves(m, before, row, name);
        assert(steps.last() == steps[steps.len() - 1]);
    }
}

/// A column keeps its value while other columns are added.
pub proof fn lemma_value_stays(m: Arithmetic, steps: Steps, i: int, row: Row)
    requires
        0 <= i < steps.len(),
        forall|j: int| i < j < steps.len() ==> (#[trigger] steps[j]).0 != steps[i].0,
    ensures
        m.run(steps, row).contains_key(steps[i].0),
        m.run(steps, row)[steps[i].0] == m.value(steps[i].1, m.run(steps.take(i), row)),
    decreases steps.len(),
{
    let before = steps.drop_last();
    if i == steps.len() - 1 {
        assert(steps.take(i) =~= before);
    } else {
        assert(before.take(i) =~= steps.take(i));
        assert(before[i] == steps[i]);
        assert forall|j: int| i < j < before.len() implies (#[trigger] before[j]).0 != before[i].0 by {
            assert(before[j] == steps[j]);
        }
        lemma_value_stays(m, before, i, row);
        assert(steps.last() == steps[steps.len() - 1]);
    }
}

/// Whether each column has a name of its own, which is not among those given.
pub open spec fn has_own_names(steps: Steps, columns: Set<Seq<char>>) -> bool {
    &&& forall|i: int, j: int|
        0 <= i < j < steps.len() ==> (#[trigger] steps[i]).0 != (#[trigger] steps[j]).0
    &&& forall|i: int| 0 <= i < steps.len() ==> !columns.contains((#[trigger] steps[i]).0)
}

/// Whether the names of a plan's columns are all different and have ranks in a range.
pub open spec fn ranked(
    steps: Steps,
    rank: spec_fn(Seq<char>) -> int,
    low: int,
    high: int,
) -> bool {
    &&& forall|i: int| 0 <= i < steps.len() ==> low <= rank((#[trigger] steps[i]).0) < high
    &&& forall|i: int, j: int|
        0 <= i < j < steps.len() ==> (#[trigger] steps[i]).0 != (#[trigger] steps[j]).0
}

/// Two plans one after the other, with the higher ranks in the second.
pub proof fn lemma_ranked_append(
    a: Steps,
    b: Steps,
    rank: spec_fn(Seq<char>) -> int,
    low: int,
    middle: int,
    high: int,
)
    requires
        low <= middle <= high,
        ranked(a, rank, low, middle),
        ranked(b, rank, middle, high),
    ensures
        ranked(a + b, rank, low, high),
{
    let both = a + b;
    assert forall|i: int| 0 <= i < both.len() implies low <= rank((#[trigger] both[i]).0)
        < high by {
        if i < a.len() {
            assert(both[i] == a[i]);
        } else {
            assert(both[i] == b[i - a.len()]);
        }
    }
    assert forall|i: int, j: int| 0 <= i < j < both.len() implies (#[trigger] both[i]).0 != (
    #[trigger] both[j]).0 by {
        if j < a.len() {
            assert(both[i] == a[i] && both[j] == a[j]);
        } else if i >= a.len() {
            assert(both[i] == b[i - a.len()] && both[j] == b[j - a.len()]);
        } else {
            assert(both[i] == a[i] && both[j] == b[j - a.len()]);
            assert(rank(a[i].0) < middle && rank(b[j - a.len()].0) >= middle);
        }
    }
}

/// Columns with ranks of their own have names of their own.
pub proof fn lemma_ranked_own(
    steps: Steps,
    columns: Set<Seq<char>>,
    rank: spec_fn(Seq<char>) -> int,
    low: int,
    high: int,
)
    requires
        ranked(steps, rank, low, high),
        forall|name: Seq<char>| #[trigger] columns.contains(name) ==> rank(name) < low,
    ensures
        has_own_names(steps, columns),
{
}

/// Where no column takes the place of another, each holds in the end what its
/// expression says of the row as it is in the end; and the columns that were there
/// stay.
pub proof fn law_columns_hold(
    m: Arithmetic,
    steps: Steps,
    row: Row,
    columns: Set<Seq<char>>,
    by_name: spec_fn(Seq<char>) -> Sort,
)
    requires
        is_sound(steps, columns, by_name),
        has_own_names(steps, columns),
    ensures
        forall|i: int|
            0 <= i < steps.len() ==> m.value(
                Node::Column((#[trigger] steps[i]).0),
                m.run(steps, row),
            ) == m.value(steps[i].1, m.run(steps, row)),
        forall|name: Seq<char>|
            columns.contains(name) ==> #[trigger] m.value(
                Node::Column(name),
                m.run(steps, row),
            ) == m.value(Node::Column(name), row),
{
    let after = m.run(steps, row);
    assert forall|i: int| 0 <= i < steps.len() implies m.value(
        Node::Column((#[trigger] steps[i]).0),
        after,
    ) == m.value(steps[i].1, after) by {
        lemma_value_stays(m, steps, i, row);
        let before = m.run(steps.take(i), row);
        let known = columns.union(names(steps.take(i)));
        let sorts = table(known, by_name);
        assert(agree(before, after, sorts)) by {
            assert forall|name: Seq<char>| #[trigger] sorts.contains_key(name) implies before
                .contains_key(name) == after.contains_key(name) && (before.contains_key(name)
                ==> before[name] == after[name]) by {
                let rest = steps.skip(i);
                assert forall|j: int| 0 <= j < rest.len() implies (#[trigger] rest[j]).0
                    != name by {
                    assert(rest[j] == steps[i + j]);
                    if names(steps.take(i)).contains(name) {
                        let k = choose|k: int|
                            0 <= k < steps.take(i).len() && (#[trigger] steps.take(i)[k]).0 == name;
                        assert(steps[k].0 == name);
                    }
                }
                lemma_run_leaves(m, rest, before, name);
                lemma_run_append(m, steps.take(i), rest, row);
                assert(steps.take(i) + rest =~= steps);
            }
        }
        law_value_depends_on_columns(m, steps[i].1, before, after, sorts);
    }
    assert forall|name: Seq<char>| columns.contains(name) implies #[trigger] m.value(
        Node::Column(name),
        after,
    ) == m.value(Node::Column(name), row) by {
        lemma_run_leaves(m, steps, row, name);
    }
}

/// Carrying out a sound plan gives every column that it adds a value of its sort,
/// or a missing one.
pub proof fn law_run_fits(
    m: Arithmetic,
    steps: Steps,
    row: Row,
    columns: Set<Seq<char>>,
    by_name: spec_fn(Seq<char>) -> Sort,
)
    requires
        is_sound(steps, columns, by_name),
        fits(row, table(columns, by_name)),
    ensures
        fits(m.run(steps, row), table(columns.union(names(steps)), by_name)),
    decreases steps.len(),
{
    if steps.len() == 0 {
        assert(names(steps) =~= Set::empty());
        assert(columns.union(names(steps)) =~= columns);
    } else {
        let before = steps.drop_last();
        let last = steps.last();
        assert(steps == before + seq![last]) by {
            assert(steps =~= before + seq![last]);
        }
        assert forall|i: int| 0 <= i < before.len() implies sort_of(
            (#[trigger] before[i]).1,
            table(columns.union(names(before.take(i))), by_name),
        ) == Some(by_name(before[i].0)) by {
            assert(before[i] == steps[i]);
            assert(before.take(i) =~= steps.take(i));
        }
        law_run_fits(m, before, row, columns, by_name);
        let sorts = table(columns.union(names(before)), by_name);
        assert(before =~= steps.take(steps.len() - 1));
        assert(steps[steps.len() - 1] == last);
        law_value_is_of_sort(m, last.1, m.run(before, row), sorts);
        lemma_names_append(before, seq![last]);
        let after = table(columns.union(names(steps)), by_name);
        assert forall|name: Seq<char>| #[trigger] after.contains_key(name) implies m.run(
            steps,
            row,
        ).contains_key(name) && is_of(m.run(steps, row)[name], after[name]) by {
            if name != last.0 {
                assert(!names(seq![last]).contains(name));
                assert(sorts.contains_key(name));
            }
        }
    }
}

pub broadcast proof fn lemma_value_binary(
    m: Arithmetic,
    left: Node,
    op: Operator,
    right: Node,
    row: Row,
)
    ensures
        #[trigger] m.value(left.binary(op, right), row) == m.apply(
            op,
            m.value(left, row),
            m.value(right, row),
        ),
{
}

pub broadcast proof fn lemma_value_is_null(m: Arithmetic, inner: Node, row: Row)
    ensures
        #[trigger] m.value(inner.is_null(), row) == Value::Truth(m.value(inner, row) is Missing),
{
}

pub broadcast proof fn lemma_value_is_not_null(m: Arithmetic, inner: Node, row: Row)
    ensures
        #[trigger] m.value(inner.is_not_null(), row) == Value::Truth(
            m.value(inner, row) !is Missing,
        ),
{
}

pub broadcast proof fn lemma_value_abs(m: Arithmetic, inner: Node, row: Row)
    requires
        m.value(inner, row) is Number,
    ensures
        #[trigger] m.value(inner.abs(), row) == Value::Number(
            (m.abs)(m.value(inner, row)->Number_0),
        ),
{
}

pub broadcast proof fn lemma_value_power(m: Arithmetic, base: Node, exponent: Node, row: Row)
    requires
        m.value(base, row) is Number,
        m.value(exponent, row) is Number,
    ensures
        #[trigger] m.value(base.power(exponent), row) == Value::Number(
            (m.power)(m.value(base, row)->Number_0, m.value(exponent, row)->Number_0),
        ),
{
}

pub broadcast proof fn lemma_value_case(
    m: Arithmetic,
    condition: Node,
    value: Node,
    otherwise: Node,
    row: Row,
)
    ensures
        #[trigger] m.value(condition.case(value, otherwise), row) == (if m.value(condition, row)
            == Value::Truth(true) {
            m.value(value, row)
        } else {
            m.value(otherwise, row)
        }),
{
}

pub broadcast proof fn lemma_value_number(m: Arithmetic, bits: u64, row: Row)
    ensures
        #[trigger] m.value(Node::Number(bits), row) == Value::Number(bits),
{
}

pub broadcast group group_values {
    lemma_value_binary,
    lemma_value_is_null,
    lemma_value_is_not_null,
    lemma_value_abs,
    lemma_value_power,
    lemma_value_case,
    lemma_value_number,
}

} // verus!
