use datafusion_raytracer::template::{fill, Value};
use datafusion_raytracer::text::{join, push_decimal};
use datafusion_raytracer::trace::pixel_grid;
use datafusion_raytracer::sql::{literal, named, Sql};
use datafusion_raytracer::{gradient, sphere};

fn value(name: &str, text: &str) -> Value {
    Value { name: name.to_string(), text: text.to_string() }
}

#[test]
fn decimal_numbers() {
    for n in [0u32, 7, 9, 10, 255, 600, 799, 800, 1000, u32::MAX] {
        let mut text = "n=".to_string();
        push_decimal(&mut text, n);
        assert_eq!(text, format!("n={}", n));
    }
}

#[test]
fn joined_names() {
    assert_eq!(join("t_", "red"), "t_red");
    assert_eq!(join("", ""), "");
}

#[test]
fn holes_are_filled() {
    let values = vec![value("a", "1"), value("b", "two"), value("a", "3")];
    assert_eq!(fill("x {a} y {b}{a}.", &values), "x 1 y two1.");
    assert_eq!(fill("{c}|", &values), "|");
}

#[test]
fn text_without_holes_stays() {
    assert_eq!(fill("no holes } here", &vec![value("a", "1")]), "no holes } here");
    assert_eq!(fill("", &Vec::new()), "");
    assert_eq!(fill("open { end", &Vec::new()), "open { end");
}

#[test]
fn the_query_for_a_table_of_pixels() {
    assert_eq!(
        pixel_grid(10, 10),
        "SELECT CAST(x AS DOUBLE) as x, CAST(y AS DOUBLE) as y FROM generate_series(0, 9) AS t1(x), generate_series(0, 9) AS t2(y)"
    );
    assert_eq!(
        pixel_grid(800, 600),
        "SELECT CAST(x AS DOUBLE) as x, CAST(y AS DOUBLE) as y FROM generate_series(0, 799) AS t1(x), generate_series(0, 599) AS t2(y)"
    );
}

#[test]
fn the_query_for_the_gradient() {
    let expected = format!(
        r#"
        SELECT
            CAST(x AS INT UNSIGNED) as x,
            CAST(y AS INT UNSIGNED) as y,
            -- Red: gradient from left to right
            CAST((x * 255 / {width}) AS INT UNSIGNED) as r,
            -- Green: slight diagonal gradient
            CAST(((x + y) * 128 / ({width} + {height})) AS INT UNSIGNED) as g,
            -- Blue: gradient from top (255) to bottom (128)
            CAST((255 - (y * 127 / {height})) AS INT UNSIGNED) as b
        FROM
            generate_series(0, {width} - 1) as t1(x),
            generate_series(0, {height} - 1) as t2(y)
        "#,
        width = 800,
        height = 600
    );
    let rendering = gradient::render();
    assert_eq!(rendering.query, expected);
    assert_eq!((rendering.width, rendering.height), (800, 600));
    assert_eq!(rendering.path, "gradient.ppm");
    assert!(rendering.plan.steps.is_empty());
    assert!(rendering.projection.is_none());
    assert_eq!(gradient::query(800, 600), expected);
}

const SPHERE_QUERY: &str = "
        WITH
        -- Generate pixel grid
        pixels AS (
            SELECT
                x,
                y,
                -- Convert pixel coords to viewport coords [-1, 1]
                -- Note: y is flipped (0 at top in image, but +y is up in world)
                (CAST(x AS DOUBLE) / 800 - 0.5) * 2.6666666666666665 AS vp_x,
                (0.5 - CAST(y AS DOUBLE) / 600) * 2 AS vp_y
            FROM
                generate_series(0, 800 - 1) AS t1(x),
                generate_series(0, 600 - 1) AS t2(y)
        ),

        -- Create rays from camera origin through viewport
        rays AS (
            SELECT
                x, y,
                -- Camera at origin
                0.0 AS origin_x,
                0.0 AS origin_y,
                0.0 AS origin_z,
                -- Ray direction (not normalized, pointing at viewport pixel)
                vp_x AS dir_x,
                vp_y AS dir_y,
                -1 AS dir_z
            FROM pixels
        ),

        -- Compute ray-sphere intersection using quadratic formula
        intersections AS (
            SELECT
                x, y,
                origin_x, origin_y, origin_z,
                dir_x, dir_y, dir_z,
                -- Vector from ray origin to sphere center (oc = origin - center)
                origin_x - 0 AS oc_x,
                origin_y - 0 AS oc_y,
                origin_z - -1 AS oc_z,
                -- Quadratic coefficients
                -- a = dot(dir, dir)
                dir_x * dir_x + dir_y * dir_y + dir_z * dir_z AS a,
                -- b = 2 * dot(dir, oc) - we'll compute half_b = dot(dir, oc) for numerical stability
                dir_x * (origin_x - 0) + dir_y * (origin_y - 0) + dir_z * (origin_z - -1) AS half_b,
                -- c = dot(oc, oc) - radius^2
                (origin_x - 0) * (origin_x - 0) +
                (origin_y - 0) * (origin_y - 0) +
                (origin_z - -1) * (origin_z - -1) - 0.5 * 0.5 AS c
            FROM rays
        ),

        -- Determine hit/miss and compute hit point
        hits AS (
            SELECT
                x, y,
                origin_x, origin_y, origin_z,
                dir_x, dir_y, dir_z,
                a, half_b, c,
                -- discriminant = half_b^2 - a*c (using half_b form)
                half_b * half_b - a * c AS discriminant,
                -- t = (-half_b - sqrt(discriminant)) / a (nearest intersection)
                CASE
                    WHEN half_b * half_b - a * c >= 0
                    THEN (-half_b - sqrt(half_b * half_b - a * c)) / a
                    ELSE NULL
                END AS t
            FROM intersections
        ),

        -- Calculate surface normal at hit point
        normals AS (
            SELECT
                x, y, t, discriminant,
                -- Hit point P = origin + t * dir
                origin_x + t * dir_x AS hit_x,
                origin_y + t * dir_y AS hit_y,
                origin_z + t * dir_z AS hit_z,
                -- Normal N = (P - center) / radius
                (origin_x + t * dir_x - 0) / 0.5 AS normal_x,
                (origin_y + t * dir_y - 0) / 0.5 AS normal_y,
                (origin_z + t * dir_z - -1) / 0.5 AS normal_z
            FROM hits
        ),

        -- Final color computation
        colors AS (
            SELECT
                x, y,
                CASE
                    WHEN t IS NOT NULL AND t > 0 THEN
                        -- Map normal to color: normal is in [-1,1], map to [0,1] then [0,255]
                        -- This creates a nice visualization of the surface orientation
                        CAST((normal_x + 1.0) * 0.5 * 255 AS INT UNSIGNED)
                    ELSE
                        -- Background: sky blue gradient
                        CAST(128 + 127 * (0.5 - CAST(y AS DOUBLE) / 600) AS INT UNSIGNED)
                END AS r,
                CASE
                    WHEN t IS NOT NULL AND t > 0 THEN
                        CAST((normal_y + 1.0) * 0.5 * 255 AS INT UNSIGNED)
                    ELSE
                        CAST(178 + 77 * (0.5 - CAST(y AS DOUBLE) / 600) AS INT UNSIGNED)
                END AS g,
                CASE
                    WHEN t IS NOT NULL AND t > 0 THEN
                        CAST((normal_z + 1.0) * 0.5 * 255 AS INT UNSIGNED)
                    ELSE
                        -- Blue stays constant for sky
                        CAST(255 AS INT UNSIGNED)
                END AS b
            FROM normals
        )

        SELECT
            CAST(x AS INT UNSIGNED) AS x,
            CAST(y AS INT UNSIGNED) AS y,
            r, g, b
        FROM colors
        ";

#[test]
fn the_whole_query_for_the_sphere() {
    assert_eq!(sphere::render().query, SPHERE_QUERY);
    assert_eq!(sphere::query(800, 600), SPHERE_QUERY);
}

fn check_literals(sql: &Sql) -> usize {
    match sql {
        Sql::Literal(text, number) => {
            assert_eq!(text.parse::<f64>().unwrap().to_bits(), number.bits, "{}", text);
            1
        }
        Sql::Name(_) | Sql::Null => 0,
        Sql::Double(a) | Sql::Unsigned(a) | Sql::Negative(a) | Sql::Sqrt(a) | Sql::IsNotNull(a) => {
            check_literals(a)
        }
        Sql::Binary(_, a, _, b) => check_literals(a) + check_literals(b),
        Sql::Case(a, _, _, b, _, c) => check_literals(a) + check_literals(b) + check_literals(c),
    }
}

#[test]
fn literals_are_written_as_their_numbers() {
    let list = sphere::selections(800, 600);
    assert_eq!(list.len(), 25);
    assert_eq!(list.iter().map(|s| check_literals(&s.expr)).sum::<usize>(), 52);
}

#[test]
fn brackets_where_they_are_needed() {
    let (a, b, c) = (|| named("a"), || named("b"), || named("c"));
    assert_eq!(a().minus(b()).minus(c()).text(), "a - b - c");
    assert_eq!(a().minus(b().minus(c())).text(), "a - (b - c)");
    assert_eq!(a().plus(b()).times(c()).text(), "(a + b) * c");
    assert_eq!(a().plus(b().times(c())).text(), "a + b * c");
    assert_eq!(a().over(b().times(c())).text(), "a / (b * c)");
    assert_eq!(a().plus(b()).negative().text(), "-(a + b)");
    assert_eq!(a().gt_eq(b()).and(c().is_not_null()).text(), "a >= b AND c IS NOT NULL");
    assert_eq!(a().plus(b()).is_not_null().text(), "a + b IS NOT NULL");
    assert_eq!(a().plus_below("\n", literal("0.5", 0x3fe0_0000_0000_0000)).text(), "a +\n0.5");
    assert_eq!(a().plus(b()).sqrt().double().unsigned().text(),
        "CAST(CAST(sqrt(a + b) AS DOUBLE) AS INT UNSIGNED)");
    assert_eq!(
        a().gt(b()).case(" ", "\n", c(), " ", Sql::Null).text(),
        "CASE\n                    WHEN a > b THEN\nc\n                    ELSE NULL\n                END"
    );
}

#[test]
fn the_query_for_the_sphere() {
    let rendering = sphere::render();
    let query = &rendering.query;
    assert!(!query.contains('{') && !query.contains('}'));
    for line in [
        "(CAST(x AS DOUBLE) / 800 - 0.5) * 2.6666666666666665 AS vp_x,",
        "(0.5 - CAST(y AS DOUBLE) / 600) * 2 AS vp_y",
        "generate_series(0, 800 - 1) AS t1(x),",
        "generate_series(0, 600 - 1) AS t2(y)",
        "-1 AS dir_z",
        "origin_x - 0 AS oc_x,",
        "origin_z - -1 AS oc_z,",
        "dir_x * (origin_x - 0) + dir_y * (origin_y - 0) + dir_z * (origin_z - -1) AS half_b,",
        "(origin_z - -1) * (origin_z - -1) - 0.5 * 0.5 AS c",
        "(origin_x + t * dir_x - 0) / 0.5 AS normal_x,",
        "(origin_z + t * dir_z - -1) / 0.5 AS normal_z",
        "CAST(128 + 127 * (0.5 - CAST(y AS DOUBLE) / 600) AS INT UNSIGNED)",
        "CAST(178 + 77 * (0.5 - CAST(y AS DOUBLE) / 600) AS INT UNSIGNED)",
    ] {
        assert!(query.lines().any(|l| l.trim() == line), "{}", line);
    }
    assert_eq!((rendering.width, rendering.height), (800, 600));
    assert_eq!(rendering.path, "sphere.ppm");
    assert!(rendering.plan.steps.is_empty());
    assert!(rendering.projection.is_none());
    let small = sphere::query(10, 20);
    assert!(small.contains("(CAST(x AS DOUBLE) / 10 - 0.5)"));
    assert!(small.contains("generate_series(0, 20 - 1) AS t2(y)"));
}
