use datafusion::arrow::array::{Array, Float64Array};
use datafusion::arrow::record_batch::RecordBatch;
use datafusion::dataframe::DataFrame;
use datafusion::error::Result;
use datafusion::prelude::SessionContext;
use datafusion_raytracer::dataframe_sphere;
use datafusion_raytracer::engine::{add_columns, draw, keep_columns, EngineError};
use datafusion_raytracer::formula::{col, num, Formula};
use datafusion_raytracer::number::{Number, ONE};
use datafusion_raytracer::plan::{Plan, Projection, Rendering};
use datafusion_raytracer::ppm::{read_rows, write_ppm, Batch, Row};
use datafusion_raytracer::trace::{pixel_grid, pixels_to_rays, Camera};
use datafusion_raytracer::{gradient, multi_sphere, shadows, sphere};
use std::future::Future;

/// Waits for a future, with room for the deep recursion of the engine's planner.
fn wait<T: Send + 'static>(future: impl Future<Output = T> + Send + 'static) -> T {
    let runtime = tokio::runtime::Builder::new_multi_thread()
        .thread_stack_size(256 << 20)
        .enable_all()
        .build()
        .unwrap();
    let task = runtime.spawn(future);
    runtime.block_on(task).unwrap()
}

fn n(value: f64) -> Number {
    Number::of(value.to_bits())
}

fn camera() -> Camera {
    Camera { viewport_width: n(2.0), viewport_height: n(2.0), focal_length: n(1.0) }
}

fn count(batches: &[RecordBatch]) -> usize {
    batches.iter().map(|b| b.num_rows()).sum()
}

fn wrapped(batches: Vec<RecordBatch>) -> Vec<Batch> {
    batches.into_iter().map(|record_batch| Batch { record_batch }).collect()
}

async fn grid(ctx: &SessionContext, width: u32, height: u32) -> Result<DataFrame> {
    ctx.sql(&pixel_grid(width, height)).await
}

#[test]
fn test_pixel_grid() {
    wait(async {
        let ctx = SessionContext::new();
        let df = grid(&ctx, 10, 10).await.unwrap();
        let batches = df.collect().await.unwrap();
        assert_eq!(count(&batches), 100);
    });
}

#[test]
fn test_sphere_intersection() {
    wait(async {
        let ctx = SessionContext::new();
        let sphere = dataframe_sphere::Sphere::new(n(0.0), n(0.0), n(-1.0), n(0.5));

        let df = grid(&ctx, 10, 10).await.unwrap();
        let mut plan = Plan::new();
        pixels_to_rays(&mut plan, 10, 10, camera());
        dataframe_sphere::intersect_sphere(&mut plan, &sphere, "t");
        let df = add_columns(df, &plan).unwrap();

        let batches = df.collect().await.unwrap();
        assert!(!batches.is_empty());

        // Should have some hits and some misses
        assert_eq!(count(&batches), 100);
        let missing: usize =
            batches.iter().map(|b| b.column_by_name("t").unwrap().null_count()).sum();
        assert!(missing > 0 && missing < 100);
    });
}

#[test]
fn test_full_render_pipeline() {
    wait(async {
        let ctx = SessionContext::new();
        let sphere = dataframe_sphere::Sphere::new(n(0.0), n(0.0), n(-1.0), n(0.5));

        let df = grid(&ctx, 10, 10).await.unwrap();
        let mut plan = Plan::new();
        pixels_to_rays(&mut plan, 10, 10, camera());
        dataframe_sphere::intersect_sphere(&mut plan, &sphere, "t");
        dataframe_sphere::compute_normal(&mut plan, &sphere, "t", "s0");
        dataframe_sphere::normal_to_color(&mut plan, "t", "s0");
        let df = add_columns(df, &plan).unwrap();
        let output = dataframe_sphere::to_pixel_output("s0_r", "s0_g", "s0_b");
        let df = keep_columns(df, &output).unwrap();

        let batches = df.collect().await.unwrap();
        assert_eq!(count(&batches), 100);

        // Verify we have the expected columns
        assert_eq!(batches[0].num_columns(), 5); // x, y, r, g, b
    });
}

#[test]
fn test_gradient_render() {
    wait(async {
        // Use smaller dimensions for faster testing
        let ctx = SessionContext::new();

        let sql = r#"
            SELECT
                CAST(x AS INT UNSIGNED) as x,
                CAST(y AS INT UNSIGNED) as y,
                CAST((x * 255 / 10) AS INT UNSIGNED) as r,
                CAST(128 AS INT UNSIGNED) as g,
                CAST((255 - (y * 127 / 10)) AS INT UNSIGNED) as b
            FROM
                generate_series(0, 9) as t1(x),
                generate_series(0, 9) as t2(y)
        "#;

        let df = ctx.sql(sql).await.unwrap();
        let batches = df.collect().await.unwrap();
        assert_eq!(count(&batches), 100); // 10x10

        let content = write_ppm(&wrapped(batches), 10, 10).unwrap();
        assert!(content.starts_with("P3\n10 10\n255\n"));
    });
}

#[test]
fn test_multi_sphere_small() {
    wait(async {
        let ctx = SessionContext::new();

        let spheres = vec![
            multi_sphere::Sphere::new("s1", n(0.0), n(0.0), n(-1.0), n(0.5))
                .with_color(n(1.0), n(0.0), n(0.0)),
            multi_sphere::Sphere::new("s2", n(0.5), n(0.0), n(-1.0), n(0.3))
                .with_color(n(0.0), n(1.0), n(0.0)),
        ];

        let df = grid(&ctx, 10, 10).await.unwrap();
        let mut plan = Plan::new();
        pixels_to_rays(&mut plan, 10, 10, camera());
        for sphere in &spheres {
            multi_sphere::intersect_sphere(&mut plan, sphere);
        }
        multi_sphere::find_nearest_hit(&mut plan, &spheres);
        multi_sphere::compute_hit_sphere_index(&mut plan, &spheres);
        multi_sphere::compute_all_normals(&mut plan, &spheres);
        multi_sphere::compute_final_color(&mut plan, &spheres);
        assert_eq!(plan, multi_sphere::scene_plan(10, 10, camera(), &spheres));
        let df = add_columns(df, &plan).unwrap();
        let df = keep_columns(df, &multi_sphere::to_pixel_output()).unwrap();

        let batches = df.collect().await.unwrap();
        assert_eq!(count(&batches), 100);
    });
}

#[test]
fn test_shadows_small() {
    wait(async {
        let ctx = SessionContext::new();
        let light = shadows::Light::new(n(-2.0), n(2.0), n(0.0), n(1.0));
        let ambient = n(0.1);

        let spheres = vec![
            shadows::Sphere::new("s1", n(0.0), n(0.0), n(-1.0), n(0.5))
                .with_color(n(1.0), n(0.0), n(0.0)),
            shadows::Sphere::new("ground", n(0.0), n(-100.5), n(-1.0), n(100.0))
                .with_color(n(0.5), n(0.5), n(0.5)),
        ];

        let df = grid(&ctx, 10, 10).await.unwrap();
        let mut plan = Plan::new();
        pixels_to_rays(&mut plan, 10, 10, camera());
        for sphere in &spheres {
            shadows::intersect_sphere(&mut plan, sphere);
        }
        shadows::find_nearest_hit(&mut plan, &spheres);
        shadows::compute_hit_sphere_index(&mut plan, &spheres);
        shadows::compute_hit_point_and_normal(&mut plan, &spheres);
        shadows::compute_shadow_ray(&mut plan, &light);
        for sphere in &spheres {
            shadows::shadow_intersect_sphere(&mut plan, sphere);
        }
        shadows::compute_in_shadow(&mut plan, &spheres);
        shadows::compute_lighting(&mut plan, &light, ambient);
        shadows::compute_final_color(&mut plan, &spheres);
        assert_eq!(plan, shadows::scene_plan(10, 10, camera(), &spheres, &light, ambient));
        let df = add_columns(df, &plan).unwrap();
        let df = keep_columns(df, &shadows::to_pixel_output()).unwrap();

        let batches = df.collect().await.unwrap();
        assert_eq!(count(&batches), 100);
    });
}

#[test]
fn test_sphere_render_small() {
    wait(async {
        // Use small dimensions for fast testing
        let ctx = SessionContext::new();

        // Simplified query for 10x10 image
        let sql = r#"
            WITH
            pixels AS (
                SELECT
                    x, y,
                    (CAST(x AS DOUBLE) / 10 - 0.5) * 2.0 AS vp_x,
                    (0.5 - CAST(y AS DOUBLE) / 10) * 2.0 AS vp_y
                FROM
                    generate_series(0, 9) AS t1(x),
                    generate_series(0, 9) AS t2(y)
            ),
            rays AS (
                SELECT x, y, 0.0 AS ox, 0.0 AS oy, 0.0 AS oz,
                       vp_x AS dx, vp_y AS dy, -1.0 AS dz
                FROM pixels
            ),
            intersections AS (
                SELECT x, y, dx, dy, dz, ox, oy, oz,
                       dx*dx + dy*dy + dz*dz AS a,
                       dx*(ox-0.0) + dy*(oy-0.0) + dz*(oz-(-1.0)) AS half_b,
                       (ox-0.0)*(ox-0.0) + (oy-0.0)*(oy-0.0) + (oz-(-1.0))*(oz-(-1.0)) - 0.5*0.5 AS c
                FROM rays
            ),
            hits AS (
                SELECT x, y,
                       CASE WHEN half_b*half_b - a*c >= 0
                            THEN (-half_b - sqrt(half_b*half_b - a*c)) / a
                            ELSE NULL END AS t
                FROM intersections
            )
            SELECT
                CAST(x AS INT UNSIGNED) AS x,
                CAST(y AS INT UNSIGNED) AS y,
                CAST(CASE WHEN t IS NOT NULL AND t > 0 THEN 255 ELSE 100 END AS INT UNSIGNED) AS r,
                CAST(CASE WHEN t IS NOT NULL AND t > 0 THEN 0 ELSE 149 END AS INT UNSIGNED) AS g,
                CAST(CASE WHEN t IS NOT NULL AND t > 0 THEN 0 ELSE 237 END AS INT UNSIGNED) AS b
            FROM hits
        "#;

        let df = ctx.sql(sql).await.unwrap();
        let batches = df.collect().await.unwrap();
        assert_eq!(count(&batches), 100);

        // Verify we have some hits (red pixels) and some misses (blue pixels)
        let content = write_ppm(&wrapped(batches), 10, 10).unwrap();
        // Should have both red (255 0 0) and blue-ish (100 149 237) pixels
        assert!(content.contains("255 0 0"), "Should have hit pixels (red)");
        assert!(content.contains("100 149 237"), "Should have miss pixels (sky blue)");
    });
}

#[test]
fn test_ray_sphere_intersection_math() {
    wait(async {
        // Test the ray-sphere intersection formula directly
        let ctx = SessionContext::new();

        // Ray from origin pointing at sphere center at z=-1, radius=0.5
        // Should hit at t=0.5 (front of sphere)
        let sql = r#"
            SELECT
                -- Ray: origin (0,0,0), direction (0,0,-1)
                -- Sphere: center (0,0,-1), radius 0.5
                0.0 * 0.0 + 0.0 * 0.0 + (-1.0) * (-1.0) AS a,  -- dot(dir, dir) = 1
                0.0 * 0.0 + 0.0 * 0.0 + (-1.0) * (0.0 - (-1.0)) AS half_b,  -- dot(dir, oc) = -1
                0.0 * 0.0 + 0.0 * 0.0 + (0.0 - (-1.0)) * (0.0 - (-1.0)) - 0.5 * 0.5 AS c,  -- |oc|^2 - r^2 = 1 - 0.25 = 0.75
                (-1.0) * (-1.0) - 1.0 * 0.75 AS discriminant,  -- 1 - 0.75 = 0.25
                (-(-1.0) - sqrt(0.25)) / 1.0 AS t  -- (1 - 0.5) / 1 = 0.5
        "#;

        let df = ctx.sql(sql).await.unwrap();
        let batches = df.collect().await.unwrap();

        assert_eq!(batches.len(), 1);
        assert_eq!(batches[0].num_rows(), 1);

        // Extract the t value
        let t_col = batches[0].column(4).as_any().downcast_ref::<Float64Array>().unwrap();
        let t = t_col.value(0);
        // t should be 0.5 (distance to front of sphere)
        assert!((t - 0.5).abs() < 1e-10, "Expected t=0.5, got t={}", t);
    });
}

// ---------------------------------------------------------------------------
// The queries of the two scenes that are made of one
// ---------------------------------------------------------------------------

fn rows_of_query(query: String) -> Vec<Row> {
    wait(async move {
        let ctx = SessionContext::new();
        let batches = ctx.sql(&query).await.unwrap().collect().await.unwrap();
        read_rows(&wrapped(batches)).unwrap()
    })
}

#[test]
fn the_query_of_the_gradient_runs() {
    let mut rows = rows_of_query(gradient::query(8, 6));
    rows.sort_by_key(|row| (row.y, row.x));
    assert_eq!(rows.len(), 48);
    for (i, row) in rows.iter().enumerate() {
        let (x, y) = (i as u32 % 8, i as u32 / 8);
        assert_eq!(
            *row,
            Row {
                x: Some(x),
                y: Some(y),
                r: x * 255 / 8,
                g: (x + y) * 128 / (8 + 6),
                b: 255 - y * 127 / 6,
            }
        );
    }
}

#[test]
fn the_query_of_the_sphere_runs() {
    let rows = rows_of_query(sphere::query(8, 6));
    assert_eq!(rows.len(), 48);
    let at = |x: u32, y: u32| *rows.iter().find(|r| r.x == Some(x) && r.y == Some(y)).unwrap();
    // The ray through the middle meets the sphere, whose normal there points at the camera
    let middle = at(4, 3);
    assert_eq!((middle.r, middle.g, middle.b), (127, 127, 255));
    // The corner shows the background
    let corner = at(0, 0);
    assert_eq!((corner.r, corner.g, corner.b), (191, 216, 255));
}

// ---------------------------------------------------------------------------
// Whole scenes
// ---------------------------------------------------------------------------

fn drawn(rendering: Rendering) -> Vec<Row> {
    wait(async move {
        let ctx = SessionContext::new();
        let df = ctx.sql(&rendering.query).await.unwrap();
        let batches = draw(df, &rendering).unwrap().collect().await.unwrap();
        read_rows(&wrapped(batches)).unwrap()
    })
}

fn small(plan: Plan, projection: Option<Projection>) -> Rendering {
    Rendering {
        query: pixel_grid(8, 6),
        plan,
        projection,
        width: 8,
        height: 6,
        path: "small.ppm".to_string(),
    }
}

fn check_places(rows: &[Row]) {
    let mut places: Vec<(u32, u32)> =
        rows.iter().map(|row| (row.y.unwrap(), row.x.unwrap())).collect();
    places.sort();
    let mut expected = Vec::new();
    for y in 0..6 {
        for x in 0..8 {
            expected.push((y, x));
        }
    }
    assert_eq!(places, expected);
    assert!(rows.iter().all(|row| row.r <= 255 && row.g <= 255 && row.b <= 255));
}

#[test]
fn a_small_single_sphere() {
    let plan = dataframe_sphere::scene_plan(
        8,
        6,
        dataframe_sphere::camera(),
        &dataframe_sphere::sphere(),
    );
    let rows = drawn(small(
        plan,
        Some(dataframe_sphere::to_pixel_output("s0_r", "s0_g", "s0_b")),
    ));
    check_places(&rows);
    let middle = rows.iter().find(|row| row.x == Some(4) && row.y == Some(3)).unwrap();
    assert_eq!((middle.r, middle.g, middle.b), (127, 127, 255));
    let corner = rows.iter().find(|row| row.x == Some(0) && row.y == Some(0)).unwrap();
    assert_eq!((corner.r, corner.g, corner.b), (128, 178, 255));
}

#[test]
fn a_small_scene_with_several_spheres() {
    let plan = multi_sphere::scene_plan(8, 6, multi_sphere::camera(), &multi_sphere::spheres());
    let rows = drawn(small(plan, Some(multi_sphere::to_pixel_output())));
    check_places(&rows);
    let corner = rows.iter().find(|row| row.x == Some(0) && row.y == Some(0)).unwrap();
    assert_eq!((corner.r, corner.g, corner.b), (135, 206, 235));
}

#[test]
fn a_small_scene_with_shadows() {
    let plan = shadows::scene_plan(
        8,
        6,
        shadows::camera(),
        &shadows::spheres(),
        &shadows::light(),
        n(0.15),
    );
    let rows = drawn(small(plan, Some(shadows::to_pixel_output())));
    check_places(&rows);
    let corner = rows.iter().find(|row| row.x == Some(0) && row.y == Some(0)).unwrap();
    assert_eq!((corner.r, corner.g, corner.b), (255, 255, 255));
}

#[test]
fn without_result_columns_all_are_kept() {
    let mut plan = Plan::new();
    plan.with_column("one", num(ONE));
    wait(async move {
        let ctx = SessionContext::new();
        let df = grid(&ctx, 8, 6).await.unwrap();
        let table = draw(df, &small(plan, None)).unwrap();
        let names: Vec<String> =
            table.schema().fields().iter().map(|field| field.name().clone()).collect();
        assert_eq!(names, ["x", "y", "one"]);
    });
}

#[test]
fn a_column_takes_the_place_of_one_of_the_same_name() {
    let mut plan = Plan::new();
    plan.with_column("a", num(ONE));
    plan.with_column("a", col("a").plus(num(ONE)));
    wait(async move {
        let ctx = SessionContext::new();
        let df = grid(&ctx, 1, 1).await.unwrap();
        let batches = add_columns(df, &plan).unwrap().collect().await.unwrap();
        assert_eq!(batches[0].num_columns(), 3);
        let a = batches[0].column_by_name("a").unwrap();
        let a = a.as_any().downcast_ref::<Float64Array>().unwrap();
        assert_eq!(a.value(0), 2.0);
    });
}

#[test]
fn errors_of_the_engine() {
    wait(async {
        let ctx = SessionContext::new();
        let df = grid(&ctx, 1, 1).await.unwrap();

        let mut unknown = Plan::new();
        unknown.with_column("a", col("b"));
        assert!(matches!(add_columns(df.clone(), &unknown), Err(EngineError::Step(_))));

        let mut mixed = Plan::new();
        mixed.with_column("a", Formula::Truth(true).case(num(ONE), Formula::Index(1)));
        assert!(matches!(add_columns(df.clone(), &mixed), Err(EngineError::Case(_))));

        let missing = Projection::pixels("r", "g", "b");
        assert!(matches!(keep_columns(df.clone(), &missing), Err(EngineError::Column(_))));

        let mut twice = Projection::pixels("x", "x", "x");
        twice.outputs[2].name = "x".to_string();
        assert!(matches!(keep_columns(df, &twice), Err(EngineError::Selection(_))));
    });
}

#[test]
fn the_two_single_spheres_agree() {
    let by_place = |mut rows: Vec<Row>| {
        rows.sort_by_key(|row| (row.y, row.x));
        rows
    };
    let (w, h) = (32u32, 24u32);
    let queried = by_place(rows_of_query(sphere::query(w, h)));
    let camera = dataframe_sphere::camera();
    let planned = by_place(drawn(Rendering {
        query: pixel_grid(w, h),
        plan: dataframe_sphere::scene_plan(w, h, camera, &dataframe_sphere::sphere()),
        projection: Some(dataframe_sphere::to_pixel_output("s0_r", "s0_g", "s0_b")),
        width: w,
        height: h,
        path: "sphere.ppm".to_string(),
    }));
    assert_eq!((queried.len(), planned.len()), (768, 768));
    let mut hits = 0;
    for (a, b) in queried.iter().zip(&planned) {
        assert_eq!((a.x, a.y), (b.x, b.y));
        let (x, y) = (a.x.unwrap() as f64, a.y.unwrap() as f64);
        let (dx, dy) = ((x / 32.0 - 0.5) * (8.0 / 3.0), (0.5 - y / 24.0) * 2.0);
        // Whether the ray meets the sphere at (0, 0, -1) of radius 0.5
        if 1.0 - (dx * dx + dy * dy + 1.0) * 0.75 >= 0.0 {
            hits += 1;
            assert_eq!(a, b);
        } else {
            let up = 0.5 - y / 24.0;
            let sky = ((128.0 + 127.0 * up) as u32, (178.0 + 77.0 * up) as u32, 255);
            assert_eq!((a.r, a.g, a.b), sky);
            assert_eq!((b.r, b.g, b.b), (128, 178, 255));
        }
    }
    assert!(hits > 50 && hits < 700);
}
