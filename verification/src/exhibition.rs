//! The images of the program: each is a view of its scene, with the size that it says.
use crate::dataframe_sphere;
use crate::formula::column;
use crate::geometry::{is_entry, spot};
use crate::glass_names;
use crate::glass_portrait::{Glasshouse, is_direction, law_glass_camera};
use crate::gradient;
use crate::ideal::{IdealRow, Reals, law_opposite_is_read, product, quotient};
use crate::multi_sphere;
use crate::number::{HALF, INFINITY, Number, ONE, TWO};
use crate::optics::{Arrow, arrow};
use crate::plan::{Output, Projection, Rendering, pixel_columns};
use crate::portrait::{
    has_arrow, is_pixel, law_single_sphere, nowhere, one_half, spread, way_to_pixel,
};
use crate::refraction;
use crate::shadows;
use crate::shadows_portrait;
use crate::spheres_portrait;
use crate::sphere;
use crate::template::filled;
use crate::text::decimal;
use crate::trace::{Camera, Solid, grid_query};
use crate::vector::columns;
use vstd::prelude::*;

verus! {

/// The pattern of two times 800 over 600.
pub const WIDE: u64 = 0x4005_5555_5555_5555;

/// The way from the camera to a pixel, for an image of that size on a viewport of
/// height two at distance one.
pub open spec fn way_through(r: Reals, width: int, height: int, x: real, y: real) -> Arrow {
    Arrow {
        x: product(quotient(x, width as real) - one_half(), (r.number)(WIDE)),
        y: product(one_half() - quotient(y, height as real), 2 as real),
        z: -(1 as real),
    }
}

/// The camera of that kind.
pub open spec fn the_camera() -> Camera {
    Camera {
        viewport_width: Number { bits: WIDE },
        viewport_height: Number { bits: TWO },
        focal_length: Number { bits: ONE },
    }
}

proof fn lemma_way(r: Reals, width: nat, height: nat, x: real, y: real)
    requires
        r.is_faithful(),
    ensures
        way_to_pixel(r, width, height, the_camera(), x, y) == way_through(
            r,
            width as int,
            height as int,
            x,
            y,
        ),
{
}

/// The query of an image asks for a row for each pixel: `x` from 0 to the width less
/// one, and `y` from 0 to the height less one.
pub proof fn law_grid(width: nat, height: nat)
    requires
        width > 0,
        height > 0,
    ensures
        grid_query(width, height)
            == "SELECT CAST(x AS DOUBLE) as x, CAST(y AS DOUBLE) as y FROM generate_series(0, "@
            + decimal((width - 1) as nat) + ") AS t1(x), generate_series(0, "@ + decimal(
            (height - 1) as nat,
        ) + ") AS t2(y)"@,
{
}

/// The result has the pixel's place, and each channel from the column given for it.
pub proof fn law_projection(projection: Projection, r: Seq<char>, g: Seq<char>, b: Seq<char>)
    requires
        projection@ == pixel_columns(r, g, b),
    ensures
        projection.outputs.len() == 5,
        is_output(projection.outputs[0], "x"@, "x"@),
        is_output(projection.outputs[1], "y"@, "y"@),
        is_output(projection.outputs[2], r, "r"@),
        is_output(projection.outputs[3], g, "g"@),
        is_output(projection.outputs[4], b, "b"@),
{
    let all = pixel_columns(r, g, b);
    assert(projection@.len() == 5);
    assert(projection@[0] == all[0] && projection@[0] == projection.outputs[0]@);
    assert(projection@[1] == all[1] && projection@[1] == projection.outputs[1]@);
    assert(projection@[2] == all[2] && projection@[2] == projection.outputs[2]@);
    assert(projection@[3] == all[3] && projection@[3] == projection.outputs[3]@);
    assert(projection@[4] == all[4] && projection@[4] == projection.outputs[4]@);
}

/// Whether a column of the result is taken from a column and has a name.
pub open spec fn is_output(output: Output, source: Seq<char>, name: Seq<char>) -> bool {
    output.source@ == source && output.name@ == name
}

/// Whether an image has a size, a file, a row for each pixel, and its channels from
/// three columns.
pub open spec fn is_image(
    rendering: Rendering,
    width: int,
    height: int,
    path: Seq<char>,
    r: Seq<char>,
    g: Seq<char>,
    b: Seq<char>,
) -> bool {
    &&& rendering.width == width
    &&& rendering.height == height
    &&& rendering.path@ == path
    &&& rendering.query@
        == "SELECT CAST(x AS DOUBLE) as x, CAST(y AS DOUBLE) as y FROM generate_series(0, "@
        + decimal((width - 1) as nat) + ") AS t1(x), generate_series(0, "@ + decimal(
        (height - 1) as nat,
    ) + ") AS t2(y)"@
    &&& rendering.projection matches Some(projection) && projection.outputs.len() == 5
        && is_output(projection.outputs[0], "x"@, "x"@) && is_output(
        projection.outputs[1],
        "y"@,
        "y"@,
    ) && is_output(projection.outputs[2], r, "r"@) && is_output(projection.outputs[3], g, "g"@)
        && is_output(projection.outputs[4], b, "b"@)
}

/// The image of the single sphere: the sphere of radius one half at (0, 0, -1), seen
/// from the origin.
#[verifier::spinoff_prover]
pub proof fn law_image_of_one(r: Reals, rendering: Rendering, row: IdealRow, x: real, y: real)
    requires
        r.is_faithful(),
        dataframe_sphere::is_rendering(rendering),
        is_pixel(r, row, x, y),
    ensures
        is_image(rendering, 800, 600, "dataframe_sphere.ppm"@, "s0_r"@, "s0_g"@, "s0_b"@),
        ({
            let a = r.run(rendering.plan@, row);
            let way = way_through(r, 800, 600, x, y);
            let center = Arrow { x: 0 as real, y: 0 as real, z: -(1 as real) };
            let t = r.value(column("t"@), a);
            let normal = arrow(
                r,
                columns("s0_normal_x"@, "s0_normal_y"@, "s0_normal_z"@),
                a,
            );
            &&& is_pixel(r, a, x, y)
            &&& has_arrow(r, a, "dir_x"@, "dir_y"@, "dir_z"@, way)
            &&& is_entry(nowhere(), way, center, one_half(), t)
            &&& t is Number && t->Number_0 > 0 as real ==> has_arrow(
                r,
                a,
                "s0_r"@,
                "s0_g"@,
                "s0_b"@,
                Arrow { x: spread(normal.x), y: spread(normal.y), z: spread(normal.z) },
            ) && normal.scaled(one_half()) == nowhere().plus(way.scaled(t->Number_0)).minus(
                center,
            )
        }),
{
    let sphere = dataframe_sphere::the_sphere();
    law_grid(800, 600);
    law_projection(rendering.projection->Some_0, "s0_r"@, "s0_g"@, "s0_b"@);
    lemma_way(r, 800, 600, x, y);
    let minus_one = Number { bits: ONE }.opposite();
    law_opposite_is_read(r, Number { bits: ONE });
    assert(minus_one == 0xbff0_0000_0000_0000u64);
    assert(spot(r, sphere.center_x, sphere.center_y, sphere.center_z) == (Arrow {
        x: 0 as real,
        y: 0 as real,
        z: -(1 as real),
    }));
    assert((r.number)(HALF) == one_half());
    law_single_sphere(r, 800, 600, the_camera(), sphere, row, x, y);
}

/// The names of the spheres of the scene are clear.
#[verifier::spinoff_prover]
proof fn lemma_multi_sphere_names(spheres: Seq<multi_sphere::Sphere>)
    requires
        multi_sphere::is_the_scene(spheres),
    ensures
        spheres_portrait::has_clear_names(spheres),
{
    reveal_strlit("red");
    reveal_strlit("green");
    reveal_strlit("blue");
    reveal_strlit("yellow");
    reveal_strlit("ground");
    reveal_strlit("nearest");
    reveal_strlit("t");
    assert forall|i: int, j: int| 0 <= i < j < spheres.len() implies (#[trigger] spheres[i]).label()
        != (#[trigger] spheres[j]).label() by {
        assert(spheres[i].label() == spheres[i].name@ && spheres[j].label() == spheres[j].name@);
        assert(i == 0 || i == 1 || i == 2 || i == 3);
        assert(j == 1 || j == 2 || j == 3 || j == 4);
        assert("red"@.len() == 3 && "red"@[0] == 'r' && "red"@[1] == 'e');
        assert("green"@.len() == 5 && "green"@[0] == 'g' && "green"@[1] == 'r');
        assert("blue"@.len() == 4 && "blue"@[0] == 'b' && "blue"@[1] == 'l');
        assert("yellow"@.len() == 6 && "yellow"@[0] == 'y' && "yellow"@[1] == 'e');
        assert("ground"@.len() == 6 && "ground"@[0] == 'g' && "ground"@[1] == 'r');
    }
    assert forall|i: int| 0 <= i < spheres.len() implies (#[trigger] spheres[i]).name@ != "nearest"@
        && spheres[i].name@ != "t"@ && !spheres[i].name@.contains('_') by {
        assert(i == 0 || i == 1 || i == 2 || i == 3 || i == 4);
        assert("nearest"@.len() == 7);
        assert("t"@.len() == 1);
        assert(!"red"@.contains('_'));
        assert(!"green"@.contains('_'));
        assert(!"blue"@.contains('_'));
        assert(!"yellow"@.contains('_'));
        assert(!"ground"@.contains('_'));
    }
}

/// The names of the spheres of the scene are clear.
#[verifier::spinoff_prover]
proof fn lemma_shadows_names(spheres: Seq<shadows::Sphere>)
    requires
        shadows::is_the_scene(spheres),
    ensures
        shadows_portrait::has_clear_names(spheres),
{
    reveal_strlit("red");
    reveal_strlit("green");
    reveal_strlit("blue");
    reveal_strlit("yellow");
    reveal_strlit("ground");
    reveal_strlit("nearest");
    assert forall|i: int, j: int| 0 <= i < j < spheres.len() implies (#[trigger] spheres[i]).label()
        != (#[trigger] spheres[j]).label() by {
        assert(spheres[i].label() == spheres[i].name@ && spheres[j].label() == spheres[j].name@);
        assert(i == 0 || i == 1 || i == 2 || i == 3);
        assert(j == 1 || j == 2 || j == 3 || j == 4);
        assert("red"@.len() == 3 && "red"@[0] == 'r' && "red"@[1] == 'e');
        assert("green"@.len() == 5 && "green"@[0] == 'g' && "green"@[1] == 'r');
        assert("blue"@.len() == 4 && "blue"@[0] == 'b' && "blue"@[1] == 'l');
        assert("yellow"@.len() == 6 && "yellow"@[0] == 'y' && "yellow"@[1] == 'e');
        assert("ground"@.len() == 6 && "ground"@[0] == 'g' && "ground"@[1] == 'r');
    }
    assert forall|i: int| 0 <= i < spheres.len() implies (#[trigger] spheres[i]).name@ != "nearest"@ by {
        assert(i == 0 || i == 1 || i == 2 || i == 3 || i == 4);
        assert("nearest"@.len() == 7);
    }
}

/// The names of the spheres of the scene are clear.
#[verifier::spinoff_prover]
proof fn lemma_refraction_names(spheres: Seq<refraction::Sphere>)
    requires
        refraction::is_the_scene(spheres),
    ensures
        glass_names::has_clear_names(spheres),
{
    reveal_strlit("glass");
    reveal_strlit("red");
    reveal_strlit("blue");
    reveal_strlit("yellow");
    reveal_strlit("ground");
    reveal_strlit("nearest");
    assert forall|i: int, j: int| 0 <= i < j < spheres.len() implies (#[trigger] spheres[i]).label()
        != (#[trigger] spheres[j]).label() by {
        assert(spheres[i].label() == spheres[i].name@ && spheres[j].label() == spheres[j].name@);
        assert(i == 0 || i == 1 || i == 2 || i == 3);
        assert(j == 1 || j == 2 || j == 3 || j == 4);
        assert("glass"@.len() == 5 && "glass"@[0] == 'g' && "glass"@[1] == 'l');
        assert("red"@.len() == 3 && "red"@[0] == 'r' && "red"@[1] == 'e');
        assert("blue"@.len() == 4 && "blue"@[0] == 'b' && "blue"@[1] == 'l');
        assert("yellow"@.len() == 6 && "yellow"@[0] == 'y' && "yellow"@[1] == 'e');
        assert("ground"@.len() == 6 && "ground"@[0] == 'g' && "ground"@[1] == 'r');
    }
    assert forall|i: int| 0 <= i < spheres.len() implies (#[trigger] spheres[i]).name@ != "nearest"@ by {
        assert(i == 0 || i == 1 || i == 2 || i == 3 || i == 4);
        assert("nearest"@.len() == 7);
    }
}

/// The image of several spheres is a view of the scene's spheres, to which all that is
/// proved of such views applies; the camera looks through its pixels.
#[verifier::spinoff_prover]
pub proof fn law_image_of_several(
    r: Reals,
    rendering: Rendering,
    row: IdealRow,
    x: real,
    y: real,
)
    requires
        r.is_faithful(),
        multi_sphere::is_rendering(rendering),
        is_pixel(r, row, x, y),
    ensures
        is_image(rendering, 800, 600, "multi_sphere.ppm"@, "final_r"@, "final_g"@, "final_b"@),
        exists|spheres: Seq<multi_sphere::Sphere>| #[trigger]
            multi_sphere::is_the_scene(spheres) && spheres_portrait::is_view(
                r,
                800,
                600,
                the_camera(),
                spheres,
            ) && rendering.plan@ == multi_sphere::scene_steps(800, 600, the_camera(), spheres),
        has_arrow(
            r,
            r.run(rendering.plan@, row),
            "dir_x"@,
            "dir_y"@,
            "dir_z"@,
            way_through(r, 800, 600, x, y),
        ),
{
    law_grid(800, 600);
    law_projection(rendering.projection->Some_0, "final_r"@, "final_g"@, "final_b"@);
    lemma_way(r, 800, 600, x, y);
    let spheres = choose|spheres: Seq<multi_sphere::Sphere>| #[trigger]
        multi_sphere::is_the_scene(spheres) && rendering.plan@ == multi_sphere::scene_steps(
            multi_sphere::WIDTH as nat,
            multi_sphere::HEIGHT as nat,
            multi_sphere::scene_camera(),
            spheres,
        );
    lemma_multi_sphere_names(spheres);
    assert forall|i: int| 0 <= i < spheres.len() implies (r.number)(
        (#[trigger] spheres[i]).radius.bits,
    ) > 0 as real by {
        assert(i == 0 || i == 1 || i == 2 || i == 3 || i == 4);
        assert(0 < spheres[i].radius.bits <= INFINITY);
    }
    spheres_portrait::law_several_are_met(r, 800, 600, the_camera(), spheres, row, x, y);
}

/// The image of the lit spheres is a view of the scene's spheres in the light of its
/// lamp, to which all that is proved of such views applies; the camera looks through its
/// pixels.
#[verifier::spinoff_prover]
pub proof fn law_image_with_shadows(
    r: Reals,
    rendering: Rendering,
    row: IdealRow,
    x: real,
    y: real,
)
    requires
        r.is_faithful(),
        shadows::is_rendering(rendering),
        is_pixel(r, row, x, y),
    ensures
        is_image(rendering, 800, 600, "shadows.ppm"@, "final_r"@, "final_g"@, "final_b"@),
        exists|spheres: Seq<shadows::Sphere>| #[trigger]
            shadows::is_the_scene(spheres) && shadows_portrait::is_view(
                r,
                800,
                600,
                the_camera(),
                spheres,
            ) && rendering.plan@ == shadows::scene_steps(
                800,
                600,
                the_camera(),
                spheres,
                shadows::Light {
                    x: Number { bits: 0xc000_0000_0000_0000 },
                    y: Number { bits: 0x4008_0000_0000_0000 },
                    z: Number { bits: ONE },
                    intensity: Number { bits: ONE },
                },
                Number { bits: 0x3fc3_3333_3333_3333 },
            ),
        has_arrow(
            r,
            r.run(rendering.plan@, row),
            "dir_x"@,
            "dir_y"@,
            "dir_z"@,
            way_through(r, 800, 600, x, y),
        ),
{
    law_grid(800, 600);
    law_projection(rendering.projection->Some_0, "final_r"@, "final_g"@, "final_b"@);
    lemma_way(r, 800, 600, x, y);
    let light = shadows::the_light();
    let ambient = Number { bits: shadows::AMBIENT };
    let spheres = choose|spheres: Seq<shadows::Sphere>| #[trigger]
        shadows::is_the_scene(spheres) && rendering.plan@ == shadows::scene_steps(
            shadows::WIDTH as nat,
            shadows::HEIGHT as nat,
            shadows::scene_camera(),
            spheres,
            light,
            ambient,
        );
    lemma_shadows_names(spheres);
    assert forall|i: int| 0 <= i < spheres.len() implies (r.number)(
        (#[trigger] spheres[i]).radius.bits,
    ) > 0 as real by {
        assert(i == 0 || i == 1 || i == 2 || i == 3 || i == 4);
        assert(0 < spheres[i].radius.bits <= INFINITY);
    }
    shadows_portrait::law_lit_spheres_are_met(
        r,
        800,
        600,
        the_camera(),
        spheres,
        light,
        ambient,
        row,
        x,
        y,
    );
}

/// The image with glass is a view of the scene's spheres, the first of which is the
/// glass, in the light of its lamp, to which all that is proved of such views applies;
/// the camera looks through its pixels.
#[verifier::spinoff_prover]
pub proof fn law_image_with_glass(
    r: Reals,
    rendering: Rendering,
    row: IdealRow,
    x: real,
    y: real,
)
    requires
        r.is_faithful(),
        refraction::is_rendering(rendering),
        is_pixel(r, row, x, y),
    ensures
        is_image(rendering, 400, 300, "refraction.ppm"@, "final_r"@, "final_g"@, "final_b"@),
        exists|spheres: Seq<refraction::Sphere>| #[trigger]
            refraction::is_the_scene(spheres) && the_glasshouse(spheres).is_view(r)
                && r.run(rendering.plan@, row) == the_glasshouse(spheres).drawn(r, row),
        ({
            let a = r.run(rendering.plan@, row);
            let d = arrow(r, columns("ray_dx"@, "ray_dy"@, "ray_dz"@), a);
            &&& has_arrow(r, a, "ray_dx"@, "ray_dy"@, "ray_dz"@, d)
            &&& is_direction(r, d, way_through(r, 400, 300, x, y))
        }),
{
    law_grid(400, 300);
    law_projection(rendering.projection->Some_0, "final_r"@, "final_g"@, "final_b"@);
    lemma_way(r, 400, 300, x, y);
    let spheres = choose|spheres: Seq<refraction::Sphere>| #[trigger]
        refraction::is_the_scene(spheres) && rendering.plan@ == refraction::scene_steps(
            refraction::WIDTH as nat,
            refraction::HEIGHT as nat,
            spheres,
            spheres[0],
            refraction::the_light(),
            Number { bits: refraction::AMBIENT },
        );
    lemma_refraction_names(spheres);
    assert forall|i: int| 0 <= i < spheres.len() implies (r.number)(
        (#[trigger] spheres[i]).radius.bits,
    ) > 0 as real by {
        assert(i == 0 || i == 1 || i == 2 || i == 3 || i == 4);
        assert(0 < spheres[i].radius.bits <= INFINITY);
    }
    assert((r.number)(spheres[0].radius.bits) > 0 as real);
    law_glass_camera(r, the_glasshouse(spheres), row, x, y);
}

/// The scene with glass as the program draws it.
pub open spec fn the_glasshouse(spheres: Seq<refraction::Sphere>) -> Glasshouse {
    Glasshouse {
        width: 400,
        height: 300,
        spheres,
        glass: spheres[0],
        light: refraction::Light {
            x: Number { bits: 0xc008_0000_0000_0000 },
            y: Number { bits: 0x4008_0000_0000_0000 },
            z: Number { bits: ONE },
            intensity: Number { bits: ONE },
        },
        ambient: Number { bits: 0x3fc3_3333_3333_3333 },
    }
}

/// Where a sphere of `multi_sphere` is, how large and of which colour, by its fields.
pub proof fn law_multi_sphere_sphere(
    sphere: multi_sphere::Sphere,
    x: u64,
    y: u64,
    z: u64,
    radius: u64,
    r: u64,
    g: u64,
    b: u64,
)
    ensures
        sphere.is_at(x, y, z, radius) <==> sphere.center_x.bits == x && sphere.center_y.bits == y
            && sphere.center_z.bits == z && sphere.radius.bits == radius,
        sphere.has_color(r, g, b) <==> sphere.color_r.bits == r && sphere.color_g.bits == g
            && sphere.color_b.bits == b,
        sphere.label() == sphere.name@,
        sphere.shape().center_x == sphere.center_x,
        sphere.shape().center_y == sphere.center_y,
        sphere.shape().center_z == sphere.center_z,
        sphere.shape().radius == sphere.radius,
{
}

/// Where a sphere of `shadows` is, how large and of which colour, by its fields.
pub proof fn law_shadows_sphere(
    sphere: shadows::Sphere,
    x: u64,
    y: u64,
    z: u64,
    radius: u64,
    r: u64,
    g: u64,
    b: u64,
)
    ensures
        sphere.is_at(x, y, z, radius) <==> sphere.center_x.bits == x && sphere.center_y.bits == y
            && sphere.center_z.bits == z && sphere.radius.bits == radius,
        sphere.has_color(r, g, b) <==> sphere.color_r.bits == r && sphere.color_g.bits == g
            && sphere.color_b.bits == b,
        sphere.label() == sphere.name@,
        sphere.shape().center_x == sphere.center_x,
        sphere.shape().center_y == sphere.center_y,
        sphere.shape().center_z == sphere.center_z,
        sphere.shape().radius == sphere.radius,
{
}

/// Where a sphere of `refraction` is, how large, of what and of which colour, by its fields.
pub proof fn law_refraction_sphere(
    sphere: refraction::Sphere,
    x: u64,
    y: u64,
    z: u64,
    radius: u64,
    r: u64,
    g: u64,
    b: u64,
    reflectivity: u64,
    ior: u64,
)
    ensures
        sphere.is_at(x, y, z, radius) <==> sphere.center_x.bits == x && sphere.center_y.bits == y
            && sphere.center_z.bits == z && sphere.radius.bits == radius,
        sphere.has_color(r, g, b) <==> sphere.color_r.bits == r && sphere.color_g.bits == g
            && sphere.color_b.bits == b,
        sphere.has_material(reflectivity, ior) <==> sphere.reflectivity.bits == reflectivity
            && sphere.refractive_index.bits == ior,
        sphere.label() == sphere.name@,
        sphere.shape().center_x == sphere.center_x,
        sphere.shape().center_y == sphere.center_y,
        sphere.shape().center_z == sphere.center_z,
        sphere.shape().radius == sphere.radius,
{
}

/// The image of the gradient is what its query for that size gives, as it is.
pub proof fn law_image_of_gradient(rendering: Rendering)
    requires
        gradient::is_rendering(rendering),
    ensures
        rendering.width == 800,
        rendering.height == 600,
        rendering.path@ == "gradient.ppm"@,
        rendering.plan@.len() == 0,
        rendering.projection is None,
        rendering.query@ == filled(gradient::TEMPLATE@, gradient::size_values(800, 600)),
{
}

/// The image of the sphere in a single query is what that query for that size gives, as
/// it is.
pub proof fn law_image_of_query(rendering: Rendering)
    requires
        sphere::is_rendering(rendering),
    ensures
        rendering.width == 800,
        rendering.height == 600,
        rendering.path@ == "sphere.ppm"@,
        rendering.plan@.len() == 0,
        rendering.projection is None,
        rendering.query@ == filled(sphere::TEMPLATE@, sphere::scene_values(800, 600)),
{
}

} // verus!
