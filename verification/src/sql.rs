//! Expressions of a query: trees, the text that they are written as, and what they
//! mean.
use crate::formula::{Node, Operator, column, number};
use crate::number::{Number, ZERO};
use crate::text::join;
use vstd::prelude::*;

verus! {

/// A mathematical expression of a query. A gap is what stands between two words of it:
/// spaces, line breaks and comments.
pub enum Term {
    /// The column of that name.
    Name(Seq<char>),
    /// A number as it is written, and its pattern.
    Literal(Seq<char>, u64),
    /// The missing number.
    Null,
    /// The number as a double.
    Double(Box<Term>),
    /// The number as an unsigned integer.
    Unsigned(Box<Term>),
    Negative(Box<Term>),
    Sqrt(Box<Term>),
    IsNotNull(Box<Term>),
    /// Two operands, with the gap before the second.
    Binary(Operator, Box<Term>, Seq<char>, Box<Term>),
    /// The condition, the gaps round `THEN`, the value, the gap behind `ELSE`, and the
    /// other value.
    Case(Box<Term>, Seq<char>, Seq<char>, Box<Term>, Seq<char>, Box<Term>),
}

/// An expression of a query.
#[derive(Debug, PartialEq, Eq)]
pub enum Sql {
    Name(String),
    Literal(String, Number),
    Null,
    Double(Box<Sql>),
    Unsigned(Box<Sql>),
    Negative(Box<Sql>),
    Sqrt(Box<Sql>),
    IsNotNull(Box<Sql>),
    Binary(Operator, Box<Sql>, String, Box<Sql>),
    Case(Box<Sql>, String, String, Box<Sql>, String, Box<Sql>),
}

impl Sql {
    /// The mathematical expression.
    pub open spec fn term(self) -> Term
        decreases self,
    {
        match self {
            Sql::Name(name) => Term::Name(name@),
            Sql::Literal(text, number) => Term::Literal(text@, number.bits),
            Sql::Null => Term::Null,
            Sql::Double(a) => Term::Double(Box::new(a.term())),
            Sql::Unsigned(a) => Term::Unsigned(Box::new(a.term())),
            Sql::Negative(a) => Term::Negative(Box::new(a.term())),
            Sql::Sqrt(a) => Term::Sqrt(Box::new(a.term())),
            Sql::IsNotNull(a) => Term::IsNotNull(Box::new(a.term())),
            Sql::Binary(op, a, gap, b) => Term::Binary(
                op,
                Box::new(a.term()),
                gap@,
                Box::new(b.term()),
            ),
            Sql::Case(a, then, before, b, behind, c) => Term::Case(
                Box::new(a.term()),
                then@,
                before@,
                Box::new(b.term()),
                behind@,
                Box::new(c.term()),
            ),
        }
    }
}

impl View for Sql {
    type V = Term;

    open spec fn view(&self) -> Term {
        self.term()
    }
}

// ---------------------------------------------------------------------------
// Text
// ---------------------------------------------------------------------------

/// How an operator is written.
pub open spec fn sign(op: Operator) -> Seq<char> {
    match op {
        Operator::Plus => "+"@,
        Operator::Minus => "-"@,
        Operator::Times => "*"@,
        Operator::Over => "/"@,
        Operator::Less => "<"@,
        Operator::Greater => ">"@,
        Operator::GreaterEq => ">="@,
        Operator::Equal => "="@,
        Operator::And => "AND"@,
        Operator::Or => "OR"@,
    }
}

/// How tightly an operator binds.
pub open spec fn strength(op: Operator) -> int {
    match op {
        Operator::Or => 1,
        Operator::And => 2,
        Operator::Less | Operator::Greater | Operator::GreaterEq | Operator::Equal => 3,
        Operator::Plus | Operator::Minus => 4,
        Operator::Times | Operator::Over => 5,
    }
}

impl Term {
    /// How tightly the parts of an expression are bound.
    pub open spec fn strength(self) -> int {
        match self {
            Term::Binary(op, _, _, _) => strength(op),
            Term::IsNotNull(_) => 3,
            _ => 6,
        }
    }

    /// The text of an expression. An operand stands in brackets exactly if its parts
    /// are bound less tightly than by the operator; operators of one strength group
    /// from the left.
    pub open spec fn text(self) -> Seq<char>
        decreases self,
    {
        match self {
            Term::Name(name) => name,
            Term::Literal(text, _) => text,
            Term::Null => "NULL"@,
            Term::Double(a) => "CAST("@ + a.text() + " AS DOUBLE)"@,
            Term::Unsigned(a) => "CAST("@ + a.text() + " AS INT UNSIGNED)"@,
            Term::Negative(a) => "-"@ + bracketed(a.text(), a.strength() < 6),
            Term::Sqrt(a) => "sqrt("@ + a.text() + ")"@,
            Term::IsNotNull(a) => bracketed(a.text(), a.strength() < 4) + " IS NOT NULL"@,
            Term::Binary(op, a, gap, b) => bracketed(a.text(), a.strength() < strength(op)) + " "@
                + sign(op) + gap + bracketed(b.text(), b.strength() <= strength(op)),
            Term::Case(a, then, before, b, behind, c) => "CASE\n                    WHEN "@ + a.text()
                + then + "THEN"@ + before + b.text() + "\n                    ELSE"@ + behind
                + c.text() + "\n                END"@,
        }
    }

    /// What an expression means: the tree over the columns that it names. Whole numbers
    /// are read as doubles, which hold them exactly. A negative is read as zero less the
    /// number, the same but for the sign of a zero. A number that is made an unsigned
    /// integer is given as it is before that.
    pub open spec fn meaning(self) -> Node
        decreases self,
    {
        match self {
            Term::Name(name) => column(name),
            Term::Literal(_, bits) => number(bits),
            Term::Null => Node::NullNumber,
            Term::Double(a) => a.meaning(),
            Term::Unsigned(a) => a.meaning(),
            Term::Negative(a) => number(ZERO).minus(a.meaning()),
            Term::Sqrt(a) => a.meaning().sqrt(),
            Term::IsNotNull(a) => a.meaning().is_not_null(),
            Term::Binary(op, a, _, b) => a.meaning().binary(op, b.meaning()),
            Term::Case(a, _, _, b, _, c) => a.meaning().case(b.meaning(), c.meaning()),
        }
    }

    /// Two operands with a space before the second.
    pub open spec fn binary(self, op: Operator, other: Term) -> Term {
        Term::Binary(op, Box::new(self), " "@, Box::new(other))
    }

    pub open spec fn plus(self, other: Term) -> Term {
        self.binary(Operator::Plus, other)
    }

    pub open spec fn minus(self, other: Term) -> Term {
        self.binary(Operator::Minus, other)
    }

    pub open spec fn times(self, other: Term) -> Term {
        self.binary(Operator::Times, other)
    }

    pub open spec fn over(self, other: Term) -> Term {
        self.binary(Operator::Over, other)
    }
}

/// The text, in brackets if they are needed.
pub open spec fn bracketed(text: Seq<char>, needed: bool) -> Seq<char> {
    if needed {
        "("@ + text + ")"@
    } else {
        text
    }
}

/// The text, in brackets if they are needed.
fn in_brackets(text: String, needed: bool) -> (result: String)
    ensures
        result@ == bracketed(text@, needed),
{
    if needed {
        let mut result: String = "(".to_owned();
        result.append(text.as_str());
        result.append(")");
        result
    } else {
        text
    }
}

/// How an operator is written.
fn sign_of(op: Operator) -> (text: &'static str)
    ensures
        text@ == sign(op),
{
    match op {
        Operator::Plus => "+",
        Operator::Minus => "-",
        Operator::Times => "*",
        Operator::Over => "/",
        Operator::Less => "<",
        Operator::Greater => ">",
        Operator::GreaterEq => ">=",
        Operator::Equal => "=",
        Operator::And => "AND",
        Operator::Or => "OR",
    }
}

/// How tightly an operator binds.
fn strength_of(op: Operator) -> (n: u8)
    ensures
        n as int == strength(op),
{
    match op {
        Operator::Or => 1,
        Operator::And => 2,
        Operator::Less | Operator::Greater | Operator::GreaterEq | Operator::Equal => 3,
        Operator::Plus | Operator::Minus => 4,
        Operator::Times | Operator::Over => 5,
    }
}

impl Sql {
    /// How tightly the parts of an expression are bound.
    fn strength(&self) -> (n: u8)
        ensures
            n as int == self@.strength(),
    {
        match self {
            Sql::Binary(op, _, _, _) => strength_of(*op),
            Sql::IsNotNull(_) => 3,
            _ => 6,
        }
    }

    /// The text of an expression.
    pub fn text(&self) -> (text: String)
        ensures
            text@ == self@.text(),
        decreases self,
    {
        match self {
            Sql::Name(name) => name.clone(),
            Sql::Literal(text, _) => text.clone(),
            Sql::Null => "NULL".to_owned(),
            Sql::Double(a) => enclosed("CAST(", a.text(), " AS DOUBLE)"),
            Sql::Unsigned(a) => enclosed("CAST(", a.text(), " AS INT UNSIGNED)"),
            Sql::Negative(a) => {
                let needed: bool = a.strength() < 6;
                join("-", in_brackets(a.text(), needed).as_str())
            },
            Sql::Sqrt(a) => enclosed("sqrt(", a.text(), ")"),
            Sql::IsNotNull(a) => {
                let needed: bool = a.strength() < 4;
                join(in_brackets(a.text(), needed).as_str(), " IS NOT NULL")
            },
            Sql::Binary(op, a, gap, b) => {
                let own: u8 = strength_of(*op);
                let left: bool = a.strength() < own;
                let right: bool = b.strength() <= own;
                let mut text: String = in_brackets(a.text(), left);
                text.append(" ");
                text.append(sign_of(*op));
                text.append(gap.as_str());
                text.append(in_brackets(b.text(), right).as_str());
                text
            },
            Sql::Case(a, then, before, b, behind, c) => {
                let mut text: String = "CASE\n                    WHEN ".to_owned();
                text.append(a.text().as_str());
                text.append(then.as_str());
                text.append("THEN");
                text.append(before.as_str());
                text.append(b.text().as_str());
                text.append("\n                    ELSE");
                text.append(behind.as_str());
                text.append(c.text().as_str());
                text.append("\n                END");
                text
            },
        }
    }

    /// The number as a double.
    pub fn double(self) -> (sql: Sql)
        ensures
            sql@ == Term::Double(Box::new(self@)),
    {
        Sql::Double(Box::new(self))
    }

    /// The number as an unsigned integer.
    pub fn unsigned(self) -> (sql: Sql)
        ensures
            sql@ == Term::Unsigned(Box::new(self@)),
    {
        Sql::Unsigned(Box::new(self))
    }

    pub fn negative(self) -> (sql: Sql)
        ensures
            sql@ == Term::Negative(Box::new(self@)),
    {
        Sql::Negative(Box::new(self))
    }

    pub fn sqrt(self) -> (sql: Sql)
        ensures
            sql@ == Term::Sqrt(Box::new(self@)),
    {
        Sql::Sqrt(Box::new(self))
    }

    pub fn is_not_null(self) -> (sql: Sql)
        ensures
            sql@ == Term::IsNotNull(Box::new(self@)),
    {
        Sql::IsNotNull(Box::new(self))
    }

    /// `value` where `self` is true, else `otherwise`, with the gaps round `THEN` and
    /// behind `ELSE`.
    pub fn case(self, then: &str, before: &str, value: Sql, behind: &str, otherwise: Sql) -> (sql:
        Sql)
        ensures
            sql@ == Term::Case(
                Box::new(self@),
                then@,
                before@,
                Box::new(value@),
                behind@,
                Box::new(otherwise@),
            ),
    {
        Sql::Case(
            Box::new(self),
            then.to_owned(),
            before.to_owned(),
            Box::new(value),
            behind.to_owned(),
            Box::new(otherwise),
        )
    }

    /// Two operands with that gap before the second.
    fn apart(self, op: Operator, gap: &str, other: Sql) -> (sql: Sql)
        ensures
            sql@ == Term::Binary(op, Box::new(self@), gap@, Box::new(other@)),
    {
        Sql::Binary(op, Box::new(self), gap.to_owned(), Box::new(other))
    }

    /// Two operands with a space before the second.
    fn binary(self, op: Operator, other: Sql) -> (sql: Sql)
        ensures
            sql@ == self@.binary(op, other@),
    {
        self.apart(op, " ", other)
    }

    pub fn plus(self, other: Sql) -> (sql: Sql)
        ensures
            sql@ == self@.plus(other@),
    {
        self.binary(Operator::Plus, other)
    }

    /// The sum, with the second summand on a line of its own.
    pub fn plus_below(self, gap: &str, other: Sql) -> (sql: Sql)
        ensures
            sql@ == Term::Binary(Operator::Plus, Box::new(self@), gap@, Box::new(other@)),
    {
        self.apart(Operator::Plus, gap, other)
    }

    pub fn minus(self, other: Sql) -> (sql: Sql)
        ensures
            sql@ == self@.minus(other@),
    {
        self.binary(Operator::Minus, other)
    }

    pub fn times(self, other: Sql) -> (sql: Sql)
        ensures
            sql@ == self@.times(other@),
    {
        self.binary(Operator::Times, other)
    }

    pub fn over(self, other: Sql) -> (sql: Sql)
        ensures
            sql@ == self@.over(other@),
    {
        self.binary(Operator::Over, other)
    }

    pub fn gt(self, other: Sql) -> (sql: Sql)
        ensures
            sql@ == self@.binary(Operator::Greater, other@),
    {
        self.binary(Operator::Greater, other)
    }

    pub fn gt_eq(self, other: Sql) -> (sql: Sql)
        ensures
            sql@ == self@.binary(Operator::GreaterEq, other@),
    {
        self.binary(Operator::GreaterEq, other)
    }

    pub fn and(self, other: Sql) -> (sql: Sql)
        ensures
            sql@ == self@.binary(Operator::And, other@),
    {
        self.binary(Operator::And, other)
    }
}

/// A text between two others.
fn enclosed(before: &str, text: String, behind: &str) -> (result: String)
    ensures
        result@ == before@ + text@ + behind@,
{
    let mut result: String = before.to_owned();
    result.append(text.as_str());
    result.append(behind);
    result
}

/// The column of that name.
pub fn named(name: &str) -> (sql: Sql)
    ensures
        sql@ == Term::Name(name@),
{
    Sql::Name(name.to_owned())
}

/// A number as it is written, and its pattern.
pub fn literal(text: &str, bits: u64) -> (sql: Sql)
    ensures
        sql@ == Term::Literal(text@, bits),
{
    Sql::Literal(text.to_owned(), Number::of(bits))
}

pub broadcast proof fn lemma_meaning_name(name: Seq<char>)
    ensures
        #[trigger] Term::Name(name).meaning() == column(name),
{
}

pub broadcast proof fn lemma_meaning_literal(text: Seq<char>, bits: u64)
    ensures
        #[trigger] Term::Literal(text, bits).meaning() == number(bits),
{
}

pub broadcast proof fn lemma_meaning_double(a: Term)
    ensures
        #[trigger] Term::Double(Box::new(a)).meaning() == a.meaning(),
{
}

pub broadcast proof fn lemma_meaning_unsigned(a: Term)
    ensures
        #[trigger] Term::Unsigned(Box::new(a)).meaning() == a.meaning(),
{
}

pub broadcast proof fn lemma_meaning_negative(a: Term)
    ensures
        #[trigger] Term::Negative(Box::new(a)).meaning() == number(ZERO).minus(a.meaning()),
{
}

pub broadcast proof fn lemma_meaning_sqrt(a: Term)
    ensures
        #[trigger] Term::Sqrt(Box::new(a)).meaning() == a.meaning().sqrt(),
{
}

pub broadcast proof fn lemma_meaning_is_not_null(a: Term)
    ensures
        #[trigger] Term::IsNotNull(Box::new(a)).meaning() == a.meaning().is_not_null(),
{
}

pub broadcast proof fn lemma_meaning_binary(op: Operator, a: Term, gap: Seq<char>, b: Term)
    ensures
        #[trigger] Term::Binary(op, Box::new(a), gap, Box::new(b)).meaning()
            == a.meaning().binary(op, b.meaning()),
{
}

pub broadcast proof fn lemma_meaning_case(
    a: Term,
    then: Seq<char>,
    before: Seq<char>,
    b: Term,
    behind: Seq<char>,
    c: Term,
)
    ensures
        #[trigger] Term::Case(
            Box::new(a),
            then,
            before,
            Box::new(b),
            behind,
            Box::new(c),
        ).meaning() == a.meaning().case(b.meaning(), c.meaning()),
{
}

pub broadcast group group_meanings {
    lemma_meaning_name,
    lemma_meaning_literal,
    lemma_meaning_double,
    lemma_meaning_unsigned,
    lemma_meaning_negative,
    lemma_meaning_sqrt,
    lemma_meaning_is_not_null,
    lemma_meaning_binary,
    lemma_meaning_case,
}

} // verus!
