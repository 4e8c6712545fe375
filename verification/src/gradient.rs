//! A gradient, the simplest image: one query computes the colours.
//!
//! It blends from blue at the top to a darker blue at the bottom, with red from
//! left to right.
use crate::plan::{Plan, Rendering, Steps};
use crate::template::{Value, fill, filled, law_first_value, pairs, value_of};
use crate::text::{decimal, push_decimal};
use vstd::prelude::*;

verus! {

pub const WIDTH: u32 = 800;

pub const HEIGHT: u32 = 600;

/// The query, with holes for the size of the image.
pub const TEMPLATE: &'static str = "
        SELECT
            CAST(x AS INT UNSIGNED) as x,
            CAST(y AS INT UNSIGNED) as y,
            -- Red: gradient from left to right
            CAST((x * 255 / {width}) AS INT UNSIGNED) as r,
            -- Green: slight diagonal gradient
            CAST(((x + y) * 128 / ({width} + {height})) AS INT UNSIGNED) as g,
            -- Blue: gradient from top (255) to bottom (128)
            CAST((255 - (y * 127 / {height})) AS INT UNSIGNED) as b
        FROM
            generate_series(0, {width} - 1) as t1(x),
            generate_series(0, {height} - 1) as t2(y)
        ";

/// What goes into the holes.
pub open spec fn size_values(width: nat, height: nat) -> Seq<(Seq<char>, Seq<char>)> {
    seq![("width"@, decimal(width)), ("height"@, decimal(height))]
}

/// The query for an image of that size: place and colour of every pixel.
pub fn query(width: u32, height: u32) -> (text: String)
    ensures
        text@ == filled(TEMPLATE@, size_values(width as nat, height as nat)),
{
    let mut w: String = String::new();
    push_decimal(&mut w, width);
    let mut h: String = String::new();
    push_decimal(&mut h, height);
    let values: Vec<Value> = vec![
        Value { name: "width".to_owned(), text: w },
        Value { name: "height".to_owned(), text: h },
    ];
    proof {
        assert(w@ =~= decimal(width as nat));
        assert(h@ =~= decimal(height as nat));
        assert(pairs(values@) =~= size_values(width as nat, height as nat));
    }
    fill(TEMPLATE, &values)
}

/// Whether that is what the gradient scene asks for.
pub open spec fn is_rendering(rendering: Rendering) -> bool {
    &&& rendering.query@ == filled(TEMPLATE@, size_values(WIDTH as nat, HEIGHT as nat))
    &&& rendering.plan@ == Steps::empty()
    &&& rendering.projection is None
    &&& rendering.width == WIDTH
    &&& rendering.height == HEIGHT
    &&& rendering.path@ == "gradient.ppm"@
}

/// The gradient scene.
pub fn render() -> (rendering: Rendering)
    ensures
        is_rendering(rendering),
{
    Rendering {
        query: query(WIDTH, HEIGHT),
        plan: Plan::new(),
        projection: None,
        width: WIDTH,
        height: HEIGHT,
        path: "gradient.ppm".to_owned(),
    }
}

/// The holes of the query for the size are filled with the width and the height.
pub proof fn law_gradient_sizes(width: nat, height: nat)
    ensures
        value_of(size_values(width, height), "width"@) == decimal(width),
        value_of(size_values(width, height), "height"@) == decimal(height),
{
    reveal_strlit("width");
    reveal_strlit("height");
    let values = size_values(width, height);
    assert("width"@.len() == 5 && "height"@.len() == 6);
    law_first_value(values, 0);
    law_first_value(values, 1);
    assert(values[0].0 == "width"@ && values[1].0 == "height"@);
}

} // verus!
