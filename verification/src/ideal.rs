//! What trees mean on real numbers, where no operation rounds.
use crate::formula::{Node, Operator};
use crate::meaning::{
    Arithmetic, Row, Sort, Sorts, Value, below, has_own_names, is_sound, names, sort_of, table,
};
use crate::number::{
    CHANNEL_MAX, FIVE, HALF, INFINITY, Number, ONE, SIGN, TEN_THOUSANDTH, THOUSANDTH, TWO, ZERO,
    law_whole_has_pattern, whole_bits,
};
use crate::plan::Steps;
use vstd::arithmetic::power2::pow2;
use vstd::prelude::*;

verus! {

/// The product of two real numbers.
#[verifier::opaque]
pub open spec fn product(a: real, b: real) -> real {
    a * b
}

/// The quotient of two real numbers.
#[verifier::opaque]
pub open spec fn quotient(a: real, b: real) -> real {
    a / b
}

/// The fifth power of a real number.
pub open spec fn fifth(x: real) -> real {
    product(product(product(product(x, x), x), x), x)
}

/// The magnitude of a number.
pub open spec fn magnitude(x: real) -> real {
    if x < 0 as real {
        -x
    } else {
        x
    }
}

/// A value in a row of the ideal table.
pub enum Ideal {
    Number(real),
    Index(i32),
    Truth(bool),
    Missing,
}

/// A row of the ideal table.
pub type IdealRow = Map<Seq<char>, Ideal>;

/// Whether a pattern is that of a whole number above zero: two to the power of 52 and
/// the lower 52 bits, together times two to the power of the upper bits less 1075, are
/// the number.
pub open spec fn is_written(bits: u64, n: nat) -> bool {
    let field = bits as int / 0x10_0000_0000_0000;
    &&& n > 0
    &&& 1023 <= field <= 1075
    &&& 0x10_0000_0000_0000 + bits as int % 0x10_0000_0000_0000 == n * pow2((1075 - field) as nat)
}

/// A reading of bit patterns as real numbers, with the functions of real numbers that
/// are not made of the four operations.
pub struct Reals {
    pub number: spec_fn(u64) -> real,
    pub sqrt: spec_fn(real) -> real,
    pub power: spec_fn(real, real) -> real,
}

impl Reals {
    /// Whether the patterns of small numbers are read as those numbers, and the
    /// functions are the square root and the power.
    pub open spec fn is_right(self) -> bool {
        &&& (self.number)(ZERO) == 0 as real
        &&& (self.number)(ONE) == 1 as real
        &&& (self.number)(TWO) == 2 as real
        &&& (self.number)(FIVE) == 5 as real
        &&& forall|x: real|
            x >= 0 as real ==> #[trigger] (self.sqrt)(x) >= 0 as real && product(
                (self.sqrt)(x),
                (self.sqrt)(x),
            ) == x
        &&& forall|x: real| #[trigger] (self.power)(x, 5 as real) == fifth(x)
    }

    /// Whether, besides, the other patterns are read as the numbers that they are the
    /// patterns of: halves, whole numbers, and numbers of either sign.
    pub open spec fn is_faithful(self) -> bool {
        &&& self.is_right()
        &&& (self.number)(HALF) + (self.number)(HALF) == 1 as real
        &&& (self.number)(CHANNEL_MAX) == 255 as real
        &&& (0 as real) < (self.number)(THOUSANDTH) && (self.number)(THOUSANDTH) < 1 as real
        &&& (0 as real) < (self.number)(TEN_THOUSANDTH) && (self.number)(TEN_THOUSANDTH) < 1 as real
        &&& forall|bits: u64, n: nat| #[trigger]
            is_written(bits, n) ==> (self.number)(bits) == n as int as real
        &&& forall|bits: u64|
            bits < 0x8000_0000_0000_0000 ==> #[trigger] (self.number)(
                (bits + 0x8000_0000_0000_0000) as u64,
            ) == -(self.number)(bits)
        &&& forall|bits: u64| 0 < bits <= INFINITY ==> #[trigger] (self.number)(bits) > 0 as real
    }

    /// What an operator gives for two values; a missing one counts as in
    /// [`Arithmetic::apply`].
    pub open spec fn apply(self, op: Operator, left: Ideal, right: Ideal) -> Ideal {
        match (op, left, right) {
            (Operator::Plus, Ideal::Number(a), Ideal::Number(b)) => Ideal::Number(a + b),
            (Operator::Minus, Ideal::Number(a), Ideal::Number(b)) => Ideal::Number(a - b),
            (Operator::Times, Ideal::Number(a), Ideal::Number(b)) => Ideal::Number(product(a, b)),
            (Operator::Over, Ideal::Number(a), Ideal::Number(b)) => Ideal::Number(quotient(a, b)),
            (Operator::Less, Ideal::Number(a), Ideal::Number(b)) => Ideal::Truth(a < b),
            (Operator::Greater, Ideal::Number(a), Ideal::Number(b)) => Ideal::Truth(b < a),
            (Operator::GreaterEq, Ideal::Number(a), Ideal::Number(b)) => Ideal::Truth(b <= a),
            (Operator::Equal, Ideal::Number(a), Ideal::Number(b)) => Ideal::Truth(a == b),
            (Operator::Equal, Ideal::Index(a), Ideal::Index(b)) => Ideal::Truth(a == b),
            (Operator::Equal, Ideal::Truth(a), Ideal::Truth(b)) => Ideal::Truth(a == b),
            (Operator::And, Ideal::Truth(a), Ideal::Truth(b)) => Ideal::Truth(a && b),
            (Operator::And, Ideal::Truth(false), _) | (Operator::And, _, Ideal::Truth(false)) =>
                Ideal::Truth(false),
            (Operator::Or, Ideal::Truth(a), Ideal::Truth(b)) => Ideal::Truth(a || b),
            (Operator::Or, Ideal::Truth(true), _) | (Operator::Or, _, Ideal::Truth(true)) =>
                Ideal::Truth(true),
            _ => Ideal::Missing,
        }
    }

    /// The value of a tree in a row.
    pub open spec fn value(self, node: Node, row: IdealRow) -> Ideal
        decreases node,
    {
        match node {
            Node::Column(name) => if row.contains_key(name) {
                row[name]
            } else {
                Ideal::Missing
            },
            Node::Number(bits) => Ideal::Number((self.number)(bits)),
            Node::Index(index) => Ideal::Index(index),
            Node::Truth(truth) => Ideal::Truth(truth),
            Node::NullNumber | Node::NullIndex => Ideal::Missing,
            Node::Binary(op, left, right) => self.apply(
                op,
                self.value(*left, row),
                self.value(*right, row),
            ),
            Node::IsNull(inner) => Ideal::Truth(self.value(*inner, row) is Missing),
            Node::IsNotNull(inner) => Ideal::Truth(self.value(*inner, row) !is Missing),
            Node::Sqrt(inner) => match self.value(*inner, row) {
                Ideal::Number(a) => Ideal::Number((self.sqrt)(a)),
                _ => Ideal::Missing,
            },
            Node::Abs(inner) => match self.value(*inner, row) {
                Ideal::Number(a) => Ideal::Number(magnitude(a)),
                _ => Ideal::Missing,
            },
            Node::Power(base, exponent) => match (
                self.value(*base, row),
                self.value(*exponent, row),
            ) {
                (Ideal::Number(a), Ideal::Number(b)) => Ideal::Number((self.power)(a, b)),
                _ => Ideal::Missing,
            },
            Node::Case(condition, value, otherwise) => if self.value(*condition, row)
                == Ideal::Truth(true) {
                self.value(*value, row)
            } else {
                self.value(*otherwise, row)
            },
            Node::Converted(_) => Ideal::Missing,
            Node::Named(inner, _) => self.value(*inner, row),
        }
    }

    /// The row after the columns of a plan have been added.
    pub open spec fn run(self, steps: Steps, row: IdealRow) -> IdealRow
        decreases steps.len(),
    {
        if steps.len() == 0 {
            row
        } else {
            let before = self.run(steps.drop_last(), row);
            before.insert(steps.last().0, self.value(steps.last().1, before))
        }
    }

    /// A value, with its pattern read as a number.
    pub open spec fn read(self, value: Value) -> Ideal {
        match value {
            Value::Number(bits) => Ideal::Number((self.number)(bits)),
            Value::Index(index) => Ideal::Index(index),
            Value::Truth(truth) => Ideal::Truth(truth),
            Value::Missing => Ideal::Missing,
        }
    }

    /// A row, with its patterns read as numbers.
    pub open spec fn read_row(self, row: Row) -> IdealRow {
        row.map_values(|value: Value| self.read(value))
    }

    /// Whether an operation on two numbers gives what it gives on real numbers.
    pub open spec fn keeps(self, m: Arithmetic, op: Operator, a: u64, b: u64) -> bool {
        let n = self.number;
        match op {
            Operator::Plus => n((m.plus)(a, b)) == n(a) + n(b),
            Operator::Minus => n((m.minus)(a, b)) == n(a) - n(b),
            Operator::Times => n((m.times)(a, b)) == product(n(a), n(b)),
            Operator::Over => n((m.over)(a, b)) == quotient(n(a), n(b)),
            Operator::Less | Operator::Greater | Operator::GreaterEq => {
                &&& below(a, b) <==> n(a) < n(b)
                &&& below(b, a) <==> n(b) < n(a)
            },
            Operator::Equal => a == b <==> n(a) == n(b),
            _ => true,
        }
    }

    /// Whether all the operations on the way to a tree's value in a row give what they
    /// give on real numbers.
    pub open spec fn is_exact(self, m: Arithmetic, node: Node, row: Row) -> bool
        decreases node,
    {
        let n = self.number;
        match node {
            Node::Binary(op, left, right) => {
                &&& self.is_exact(m, *left, row)
                &&& self.is_exact(m, *right, row)
                &&& match (m.value(*left, row), m.value(*right, row)) {
                    (Value::Number(a), Value::Number(b)) => self.keeps(m, op, a, b),
                    _ => true,
                }
            },
            Node::IsNull(inner) | Node::IsNotNull(inner) | Node::Named(inner, _) => self.is_exact(
                m,
                *inner,
                row,
            ),
            Node::Sqrt(inner) => {
                &&& self.is_exact(m, *inner, row)
                &&& m.value(*inner, row) matches Value::Number(a) ==> n((m.sqrt)(a)) == (self.sqrt)(
                    n(a),
                )
            },
            Node::Abs(inner) => {
                &&& self.is_exact(m, *inner, row)
                &&& m.value(*inner, row) matches Value::Number(a) ==> n((m.abs)(a)) == magnitude(
                    n(a),
                )
            },
            Node::Power(base, exponent) => {
                &&& self.is_exact(m, *base, row)
                &&& self.is_exact(m, *exponent, row)
                &&& match (m.value(*base, row), m.value(*exponent, row)) {
                    (Value::Number(a), Value::Number(b)) => n((m.power)(a, b)) == (self.power)(
                        n(a),
                        n(b),
                    ),
                    _ => true,
                }
            },
            Node::Case(condition, value, otherwise) => {
                &&& self.is_exact(m, *condition, row)
                &&& self.is_exact(m, *value, row)
                &&& self.is_exact(m, *otherwise, row)
            },
            _ => true,
        }
    }
}

/// The pattern of a whole number is read as the number.
pub proof fn law_whole_is_read(r: Reals, n: nat)
    requires
        r.is_faithful(),
        n <= u32::MAX,
    ensures
        (r.number)(whole_bits(n)) == n as int as real,
{
    law_whole_has_pattern(n);
    let bits = whole_bits(n);
    if n > 0 {
        assert(bits < INFINITY);
        assert(is_written(bits, n));
    }
}

/// The pattern with the other sign is read as the opposite number.
pub proof fn law_opposite_is_read(r: Reals, a: Number)
    requires
        r.is_faithful(),
    ensures
        (r.number)(a.opposite()) == -(r.number)(a.bits),
{
    if a.bits >= SIGN {
        let b = (a.bits - SIGN) as u64;
        assert((b + 0x8000_0000_0000_0000) as u64 == a.bits);
        assert((r.number)((b + 0x8000_0000_0000_0000) as u64) == -(r.number)(b));
    } else {
        assert((r.number)((a.bits + 0x8000_0000_0000_0000) as u64) == -(r.number)(a.bits));
    }
}

/// Where the operations that occur are exact, what is computed is the ideal value.
pub proof fn law_exact_is_ideal(r: Reals, m: Arithmetic, node: Node, row: Row)
    requires
        r.is_exact(m, node, row),
    ensures
        r.value(node, r.read_row(row)) == r.read(m.value(node, row)),
    decreases node,
{
    match node {
        Node::Binary(_, left, right) => {
            law_exact_is_ideal(r, m, *left, row);
            law_exact_is_ideal(r, m, *right, row);
        },
        Node::IsNull(inner) | Node::IsNotNull(inner) | Node::Sqrt(inner) | Node::Abs(inner)
        | Node::Named(inner, _) => {
            law_exact_is_ideal(r, m, *inner, row);
        },
        Node::Power(base, exponent) => {
            law_exact_is_ideal(r, m, *base, row);
            law_exact_is_ideal(r, m, *exponent, row);
        },
        Node::Case(condition, value, otherwise) => {
            law_exact_is_ideal(r, m, *condition, row);
            law_exact_is_ideal(r, m, *value, row);
            law_exact_is_ideal(r, m, *otherwise, row);
        },
        _ => {},
    }
}

// ---------------------------------------------------------------------------
// Plans
// ---------------------------------------------------------------------------

/// Whether two rows have the same values in the columns of a table.
pub open spec fn same_in(a: IdealRow, b: IdealRow, sorts: Sorts) -> bool {
    forall|name: Seq<char>| #[trigger]
        sorts.contains_key(name) ==> a.contains_key(name) == b.contains_key(name) && (
        a.contains_key(name) ==> a[name] == b[name])
}

/// The value of a tree depends on the columns that it is made of only.
pub proof fn law_ideal_depends_on_columns(r: Reals, node: Node, a: IdealRow, b: IdealRow, sorts: Sorts)
    requires
        sort_of(node, sorts) is Some,
        same_in(a, b, sorts),
    ensures
        r.value(node, a) == r.value(node, b),
    decreases node,
{
    match node {
        Node::Column(name) => {
            assert(sorts.contains_key(name));
        },
        Node::Binary(_, left, right) => {
            law_ideal_depends_on_columns(r, *left, a, b, sorts);
            law_ideal_depends_on_columns(r, *right, a, b, sorts);
        },
        Node::IsNull(inner) | Node::IsNotNull(inner) | Node::Sqrt(inner) | Node::Abs(inner) => {
            law_ideal_depends_on_columns(r, *inner, a, b, sorts);
        },
        Node::Power(base, exponent) => {
            law_ideal_depends_on_columns(r, *base, a, b, sorts);
            law_ideal_depends_on_columns(r, *exponent, a, b, sorts);
        },
        Node::Case(condition, value, otherwise) => {
            law_ideal_depends_on_columns(r, *condition, a, b, sorts);
            law_ideal_depends_on_columns(r, *value, a, b, sorts);
            law_ideal_depends_on_columns(r, *otherwise, a, b, sorts);
        },
        _ => {},
    }
}

/// Two plans one after the other.
pub proof fn lemma_ideal_append(r: Reals, a: Steps, b: Steps, row: IdealRow)
    ensures
        r.run(a + b, row) == r.run(b, r.run(a, row)),
    decreases b.len(),
{
    if b.len() == 0 {
        assert(a + b =~= a);
    } else {
        assert((a + b).drop_last() =~= a + b.drop_last());
        assert((a + b).last() == b.last());
        lemma_ideal_append(r, a, b.drop_last(), row);
    }
}

/// A plan leaves the columns that it does not add.
pub proof fn lemma_ideal_leaves(r: Reals, steps: Steps, row: IdealRow, name: Seq<char>)
    requires
        forall|i: int| 0 <= i < steps.len() ==> (#[trigger] steps[i]).0 != name,
    ensures
        r.run(steps, row).contains_key(name) == row.contains_key(name),
        row.contains_key(name) ==> r.run(steps, row)[name] == row[name],
    decreases steps.len(),
{
    if steps.len() > 0 {
        let before = steps.drop_last();
        assert forall|i: int| 0 <= i < before.len() implies (#[trigger] before[i]).0 != name by {
            assert(before[i] == steps[i]);
        }
        lemma_ideal_leaves(r, before, row, name);
        assert(steps.last() == steps[steps.len() - 1]);
    }
}

/// A column keeps its value while other columns are added.
pub proof fn lemma_ideal_stays(r: Reals, steps: Steps, i: int, row: IdealRow)
    requires
        0 <= i < steps.len(),
        forall|j: int| i < j < steps.len() ==> (#[trigger] steps[j]).0 != steps[i].0,
    ensures
        r.run(steps, row).contains_key(steps[i].0),
        r.run(steps, row)[steps[i].0] == r.value(steps[i].1, r.run(steps.take(i), row)),
    decreases steps.len(),
{
    let before = steps.drop_last();
    if i == steps.len() - 1 {
        assert(steps.take(i) =~= before);
    } else {
        assert(before.take(i) =~= steps.take(i));
        assert(before[i] == steps[i]);
        assert forall|j: int| i < j < before.len() implies (#[trigger] before[j]).0 != before[i].0 by {
            assert(before[j] == steps[j]);
        }
        lemma_ideal_stays(r, before, i, row);
        assert(steps.last() == steps[steps.len() - 1]);
    }
}

/// Where no column takes the place of another, each holds in the end what its
/// expression says of the row as it is in the end; and the columns that were there
/// stay.
pub proof fn law_ideal_columns_hold(
    r: Reals,
    steps: Steps,
    row: IdealRow,
    columns: Set<Seq<char>>,
    by_name: spec_fn(Seq<char>) -> Sort,
)
    requires
        is_sound(steps, columns, by_name),
        has_own_names(steps, columns),
    ensures
        forall|i: int|
            0 <= i < steps.len() ==> r.value(
                Node::Column((#[trigger] steps[i]).0),
                r.run(steps, row),
            ) == r.value(steps[i].1, r.run(steps, row)),
        forall|name: Seq<char>|
            columns.contains(name) ==> #[trigger] r.value(
                Node::Column(name),
                r.run(steps, row),
            ) == r.value(Node::Column(name), row),
{
    let after = r.run(steps, row);
    assert forall|i: int| 0 <= i < steps.len() implies r.value(
        Node::Column((#[trigger] steps[i]).0),
        after,
    ) == r.value(steps[i].1, after) by {
        lemma_ideal_stays(r, steps, i, row);
        let before = r.run(steps.take(i), row);
        let known = columns.union(names(steps.take(i)));
        let sorts = table(known, by_name);
        assert(same_in(before, after, sorts)) by {
            assert forall|name: Seq<char>| #[trigger] sorts.contains_key(name) implies before
                .contains_key(name) == after.contains_key(name) && (before.contains_key(name)
                ==> before[name] == after[name]) by {
                let rest = steps.skip(i);
                assert forall|j: int| 0 <= j < rest.len() implies (#[trigger] rest[j]).0
                    != name by {
                    assert(rest[j] == steps[i + j]);
                    if names(steps.take(i)).contains(name) {
                        let k = choose|k: int|
                            0 <= k < steps.take(i).len() && (#[trigger] steps.take(i)[k]).0 == name;
                        assert(steps[k].0 == name);
                    }
                }
                lemma_ideal_leaves(r, rest, before, name);
                lemma_ideal_append(r, steps.take(i), rest, row);
                assert(steps.take(i) + rest =~= steps);
            }
        }
        law_ideal_depends_on_columns(r, steps[i].1, before, after, sorts);
    }
    assert forall|name: Seq<char>| columns.contains(name) implies #[trigger] r.value(
        Node::Column(name),
        after,
    ) == r.value(Node::Column(name), row) by {
        lemma_ideal_leaves(r, steps, row, name);
    }
}

pub broadcast proof fn lemma_ideal_binary(
    r: Reals,
    left: Node,
    op: Operator,
    right: Node,
    row: IdealRow,
)
    ensures
        #[trigger] r.value(left.binary(op, right), row) == r.apply(
            op,
            r.value(left, row),
            r.value(right, row),
        ),
{
}

pub broadcast proof fn lemma_ideal_is_null(r: Reals, inner: Node, row: IdealRow)
    ensures
        #[trigger] r.value(inner.is_null(), row) == Ideal::Truth(r.value(inner, row) is Missing),
{
}

pub broadcast proof fn lemma_ideal_is_not_null(r: Reals, inner: Node, row: IdealRow)
    ensures
        #[trigger] r.value(inner.is_not_null(), row) == Ideal::Truth(
            r.value(inner, row) !is Missing,
        ),
{
}

pub broadcast proof fn lemma_ideal_abs(r: Reals, inner: Node, row: IdealRow)
    requires
        r.value(inner, row) is Number,
    ensures
        #[trigger] r.value(inner.abs(), row) == Ideal::Number(
            magnitude(r.value(inner, row)->Number_0),
        ),
{
}

pub broadcast proof fn lemma_ideal_sqrt(r: Reals, inner: Node, row: IdealRow)
    requires
        r.value(inner, row) is Number,
    ensures
        #[trigger] r.value(inner.sqrt(), row) == Ideal::Number(
            (r.sqrt)(r.value(inner, row)->Number_0),
        ),
{
}

pub broadcast proof fn lemma_ideal_power(r: Reals, base: Node, exponent: Node, row: IdealRow)
    requires
        r.value(base, row) is Number,
        r.value(exponent, row) is Number,
    ensures
        #[trigger] r.value(base.power(exponent), row) == Ideal::Number(
            (r.power)(r.value(base, row)->Number_0, r.value(exponent, row)->Number_0),
        ),
{
}

pub broadcast proof fn lemma_ideal_case(
    r: Reals,
    condition: Node,
    value: Node,
    otherwise: Node,
    row: IdealRow,
)
    ensures
        #[trigger] r.value(condition.case(value, otherwise), row) == (if r.value(condition, row)
            == Ideal::Truth(true) {
            r.value(value, row)
        } else {
            r.value(otherwise, row)
        }),
{
}

pub broadcast proof fn lemma_ideal_number(r: Reals, bits: u64, row: IdealRow)
    ensures
        #[trigger] r.value(Node::Number(bits), row) == Ideal::Number((r.number)(bits)),
{
}

pub broadcast group group_ideals {
    lemma_ideal_binary,
    lemma_ideal_is_null,
    lemma_ideal_is_not_null,
    lemma_ideal_abs,
    lemma_ideal_sqrt,
    lemma_ideal_power,
    lemma_ideal_case,
    lemma_ideal_number,
}

/// Whether columns hold in a row what their formulas say of it.
pub open spec fn holds(r: Reals, steps: Steps, row: IdealRow) -> bool {
    forall|i: int|
        0 <= i < steps.len() ==> r.value(Node::Column((#[trigger] steps[i]).0), row) == r.value(
            steps[i].1,
            row,
        )
}

/// What two plans one after the other hold, each holds.
pub proof fn lemma_holds_split(r: Reals, a: Steps, b: Steps, row: IdealRow)
    requires
        holds(r, a + b, row),
    ensures
        holds(r, a, row),
        holds(r, b, row),
{
    let both = a + b;
    assert forall|i: int| 0 <= i < a.len() implies r.value(
        Node::Column((#[trigger] a[i]).0),
        row,
    ) == r.value(a[i].1, row) by {
        assert(both[i] == a[i]);
    }
    assert forall|i: int| 0 <= i < b.len() implies r.value(
        Node::Column((#[trigger] b[i]).0),
        row,
    ) == r.value(b[i].1, row) by {
        assert(both[a.len() + i] == b[i]);
    }
}

} // verus!
