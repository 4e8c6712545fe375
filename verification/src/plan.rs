//! Plans: the columns that a scene adds to the pixel table, in order.
use crate::formula::{Formula, Node};
use crate::vector::{Triple, Vec3};
use vstd::prelude::*;

verus! {

/// One column to add: its name and what it holds.
#[derive(Debug, PartialEq, Eq)]
pub struct Step {
    pub name: String,
    pub expr: Formula,
}

/// The columns to add, in order. A column with the name of an earlier one takes
/// its place.
#[derive(Debug, PartialEq, Eq)]
pub struct Plan {
    pub steps: Vec<Step>,
}

/// The mathematical plan: names and expression trees.
pub type Steps = Seq<(Seq<char>, Node)>;

impl View for Step {
    type V = (Seq<char>, Node);

    open spec fn view(&self) -> (Seq<char>, Node) {
        (self.name@, self.expr@)
    }
}

impl View for Plan {
    type V = Steps;

    open spec fn view(&self) -> Steps {
        self.steps@.map_values(|step: Step| step@)
    }
}

/// The plan that adds the three components of a vector.
pub open spec fn vector_steps(x: Seq<char>, y: Seq<char>, z: Seq<char>, v: Triple) -> Steps {
    seq![(x, v.x), (y, v.y), (z, v.z)]
}

/// A column of the result: the column it is taken from, and its name. Its values
/// are converted to unsigned integers of 32 bits.
#[derive(Debug, PartialEq, Eq)]
pub struct Output {
    pub source: String,
    pub name: String,
}

impl View for Output {
    type V = (Seq<char>, Seq<char>);

    open spec fn view(&self) -> (Seq<char>, Seq<char>) {
        (self.source@, self.name@)
    }
}

/// The columns of the result, in order.
#[derive(Debug, PartialEq, Eq)]
pub struct Projection {
    pub outputs: Vec<Output>,
}

impl View for Projection {
    type V = Seq<(Seq<char>, Seq<char>)>;

    open spec fn view(&self) -> Seq<(Seq<char>, Seq<char>)> {
        self.outputs@.map_values(|output: Output| output@)
    }
}

/// The result that holds a pixel in each row: its place, and its colour taken
/// from the three given columns.
pub open spec fn pixel_columns(r: Seq<char>, g: Seq<char>, b: Seq<char>) -> Seq<
    (Seq<char>, Seq<char>),
> {
    seq![("x"@, "x"@), ("y"@, "y"@), (r, "r"@), (g, "g"@), (b, "b"@)]
}

impl Projection {
    /// The result that holds a pixel in each row.
    pub fn pixels(r: &str, g: &str, b: &str) -> (projection: Projection)
        ensures
            projection@ == pixel_columns(r@, g@, b@),
    {
        let mut outputs: Vec<Output> = Vec::new();
        outputs.push(Output { source: "x".to_owned(), name: "x".to_owned() });
        outputs.push(Output { source: "y".to_owned(), name: "y".to_owned() });
        outputs.push(Output { source: r.to_owned(), name: "r".to_owned() });
        outputs.push(Output { source: g.to_owned(), name: "g".to_owned() });
        outputs.push(Output { source: b.to_owned(), name: "b".to_owned() });
        let projection = Projection { outputs };
        assert(projection@ =~= pixel_columns(r@, g@, b@));
        projection
    }
}

/// All that a scene asks of the query engine, and where its image goes.
#[derive(Debug, PartialEq, Eq)]
pub struct Rendering {
    /// The query that gives the table to start from.
    pub query: String,
    /// The columns to add to it.
    pub plan: Plan,
    /// The columns to keep, or nothing where the query has them right already.
    pub projection: Option<Projection>,
    pub width: u32,
    pub height: u32,
    /// The file to write.
    pub path: String,
}

impl Plan {
    /// The plan that adds nothing.
    pub fn new() -> (plan: Plan)
        ensures
            plan@ == Steps::empty(),
    {
        let plan = Plan { steps: Vec::new() };
        assert(plan@ =~= Steps::empty());
        plan
    }

    /// Adds a column.
    pub fn with_column(&mut self, name: &str, expr: Formula)
        ensures
            final(self)@ == old(self)@.push((name@, expr@)),
    {
        self.steps.push(Step { name: name.to_owned(), expr });
        assert(self@ =~= old(self)@.push((name@, expr@)));
    }

    /// Adds the three components of a vector.
    pub fn with_vector(&mut self, x: &str, y: &str, z: &str, v: Vec3)
        ensures
            final(self)@ == old(self)@ + vector_steps(x@, y@, z@, v@),
    {
        self.with_column(x, v.x);
        self.with_column(y, v.y);
        self.with_column(z, v.z);
        assert(self@ =~= old(self)@ + vector_steps(x@, y@, z@, v@));
    }
}

} // verus!
