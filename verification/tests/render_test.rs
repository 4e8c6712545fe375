use datafusion::arrow::array::{Array, ArrayRef, BooleanArray, Float64Array, Int32Array};
use datafusion::arrow::datatypes::{Field, Schema};
use datafusion::arrow::record_batch::RecordBatch;
use datafusion::common::DFSchema;
use datafusion::execution::context::ExecutionProps;
use datafusion::logical_expr::Expr;
use datafusion::physical_expr::create_physical_expr;
use datafusion_raytracer::engine::{lower, select};
use datafusion_raytracer::number::Number;
use datafusion_raytracer::plan::{Plan, Projection, Rendering};
use datafusion_raytracer::ppm::{read_rows, write_ppm, Batch, Row};
use datafusion_raytracer::trace::{pixels_to_rays, Camera};
use datafusion_raytracer::{dataframe_sphere, multi_sphere, refraction, shadows};
use std::sync::Arc;

// ---------------------------------------------------------------------------
// Carrying out a plan with the engine's own evaluation of expressions
// ---------------------------------------------------------------------------

fn n(value: f64) -> Number {
    Number::of(value.to_bits())
}

fn table(columns: Vec<(String, ArrayRef)>) -> RecordBatch {
    let fields: Vec<Field> = columns
        .iter()
        .map(|(name, array)| Field::new(name.as_str(), array.data_type().clone(), true))
        .collect();
    let arrays: Vec<ArrayRef> = columns.into_iter().map(|(_, array)| array).collect();
    RecordBatch::try_new(Arc::new(Schema::new(fields)), arrays).unwrap()
}

fn grid(width: u32, height: u32) -> RecordBatch {
    let mut x = Vec::new();
    let mut y = Vec::new();
    for row in 0..height {
        for column in 0..width {
            x.push(column as f64);
            y.push(row as f64);
        }
    }
    table(vec![
        ("x".to_string(), Arc::new(Float64Array::from(x)) as ArrayRef),
        ("y".to_string(), Arc::new(Float64Array::from(y))),
    ])
}

fn evaluate(expr: &Expr, batch: &RecordBatch) -> ArrayRef {
    let schema = DFSchema::try_from(batch.schema()).unwrap();
    create_physical_expr(expr, &schema, &ExecutionProps::new())
        .unwrap()
        .evaluate(batch)
        .unwrap()
        .into_array(batch.num_rows())
        .unwrap()
}

fn run(plan: &Plan, start: RecordBatch) -> RecordBatch {
    let mut batch = start;
    for step in &plan.steps {
        let array = evaluate(&lower(&step.expr).unwrap(), &batch);
        let mut columns: Vec<(String, ArrayRef)> = batch
            .schema()
            .fields()
            .iter()
            .zip(batch.columns())
            .map(|(field, array)| (field.name().clone(), array.clone()))
            .filter(|(name, _)| *name != step.name)
            .collect();
        columns.push((step.name.clone(), array));
        batch = table(columns);
    }
    batch
}

fn project(projection: &Projection, batch: &RecordBatch) -> RecordBatch {
    let schema = DFSchema::try_from(batch.schema()).unwrap();
    let selected = select(projection, &schema).unwrap();
    let columns = selected
        .iter()
        .zip(&projection.outputs)
        .map(|(expr, output)| (output.name.clone(), evaluate(expr, batch)))
        .collect();
    table(columns)
}

fn numbers(batch: &RecordBatch, name: &str) -> Vec<Option<f64>> {
    let array = batch.column_by_name(name).unwrap();
    array.as_any().downcast_ref::<Float64Array>().unwrap().iter().collect()
}

fn indices(batch: &RecordBatch, name: &str) -> Vec<Option<i32>> {
    let array = batch.column_by_name(name).unwrap();
    array.as_any().downcast_ref::<Int32Array>().unwrap().iter().collect()
}

fn truths(batch: &RecordBatch, name: &str) -> Vec<Option<bool>> {
    let array = batch.column_by_name(name).unwrap();
    array.as_any().downcast_ref::<BooleanArray>().unwrap().iter().collect()
}

fn square_camera() -> Camera {
    Camera { viewport_width: n(2.0), viewport_height: n(2.0), focal_length: n(1.0) }
}

// ---------------------------------------------------------------------------
// A ray tracer on plain numbers, to compare with
// ---------------------------------------------------------------------------

type V = [f64; 3];

fn sub(a: V, b: V) -> V {
    [a[0] - b[0], a[1] - b[1], a[2] - b[2]]
}

fn plus(a: V, b: V) -> V {
    [a[0] + b[0], a[1] + b[1], a[2] + b[2]]
}

fn scale(k: f64, v: V) -> V {
    [k * v[0], k * v[1], k * v[2]]
}

fn dot(a: V, b: V) -> f64 {
    a[0] * b[0] + a[1] * b[1] + a[2] * b[2]
}

fn length(v: V) -> f64 {
    dot(v, v).sqrt()
}

fn normalized(v: V) -> V {
    let l = length(v);
    [v[0] / l, v[1] / l, v[2] / l]
}

#[derive(Clone)]
struct Thing {
    center: V,
    radius: f64,
    color: V,
    reflectivity: f64,
    ior: f64,
}

fn thing(center: V, radius: f64, color: V, reflectivity: f64, ior: f64) -> Thing {
    Thing { center, radius, color, reflectivity, ior }
}

fn meet(o: V, d: V, thing: &Thing, far: bool) -> Option<f64> {
    let offset = sub(o, thing.center);
    let a = dot(d, d);
    let half_b = dot(d, offset);
    let c = dot(offset, offset) - thing.radius * thing.radius;
    let discriminant = half_b * half_b - a * c;
    if discriminant >= 0.0 {
        if far {
            Some((0.0 - half_b + discriminant.sqrt()) / a)
        } else {
            Some((0.0 - half_b - discriminant.sqrt()) / a)
        }
    } else {
        None
    }
}

fn ahead(t: Option<f64>) -> Option<f64> {
    t.filter(|t| *t > 0.001)
}

fn first_hit(o: V, d: V, things: &[Thing]) -> Option<(f64, usize)> {
    nearest(things.iter().map(|thing| ahead(meet(o, d, thing, false))).collect())
}

// Where a ray that may start inside a sphere meets one first
fn first_hit_ahead(o: V, d: V, things: &[Thing]) -> Option<(f64, usize)> {
    let first =
        |thing| ahead(meet(o, d, thing, false)).or_else(|| ahead(meet(o, d, thing, true)));
    nearest(things.iter().map(first).collect())
}

fn nearest(ts: Vec<Option<f64>>) -> Option<(f64, usize)> {
    let nearest = ts.iter().flatten().fold(f64::INFINITY, |a, b| if *b < a { *b } else { a });
    let index = ts.iter().rposition(|t| t.is_some_and(|t| (t - nearest).abs() < 0.0001))?;
    Some((nearest, index))
}

fn normal_at(thing: &Thing, p: V) -> V {
    let v = sub(p, thing.center);
    [v[0] / thing.radius, v[1] / thing.radius, v[2] / thing.radius]
}

fn brightness(light: V, intensity: f64, ambient: f64, p: V, normal: V, in_shadow: bool) -> f64 {
    let incidence = dot(normal, normalized(sub(light, p)));
    let diffuse = if incidence > 0.0 { incidence * intensity } else { 0.0 };
    let total = ambient + if in_shadow { 0.0 } else { diffuse };
    if total > 1.0 {
        1.0
    } else {
        total
    }
}

fn sky(y: f64, height: f64) -> V {
    let blend = y / height;
    let channel = |low: f64| 255.0 * (1.0 - blend) + low * blend;
    [channel(135.0), channel(206.0), channel(250.0)]
}

fn lit_surface(thing: &Thing, bright: f64) -> V {
    [
        thing.color[0] * 255.0 * bright,
        thing.color[1] * 255.0 * bright,
        thing.color[2] * 255.0 * bright,
    ]
}

fn clamp(v: V) -> V {
    [v[0].clamp(0.0, 255.0), v[1].clamp(0.0, 255.0), v[2].clamp(0.0, 255.0)]
}

fn view(x: f64, y: f64, width: f64, height: f64, vw: f64, vh: f64) -> V {
    [(x / width - 0.5) * vw, (0.5 - y / height) * vh, -1.0]
}

fn close(a: f64, b: f64) -> bool {
    (a - b).abs() < 1e-9
}

fn compare(batch: &RecordBatch, names: [&str; 3], expected: impl Fn(f64, f64) -> V) {
    let x = numbers(batch, "x");
    let y = numbers(batch, "y");
    for (k, name) in names.iter().enumerate() {
        let found = numbers(batch, name);
        for i in 0..batch.num_rows() {
            let wanted = expected(x[i].unwrap(), y[i].unwrap())[k];
            let value = found[i].unwrap();
            assert!(
                close(value, wanted),
                "{} of pixel ({:?}, {:?}): {} instead of {}",
                name,
                x[i],
                y[i],
                value,
                wanted
            );
        }
    }
}

// ---------------------------------------------------------------------------
// The single sphere
// ---------------------------------------------------------------------------

#[test]
fn the_single_sphere_on_plain_numbers() {
    let (w, h) = (20u32, 15u32);
    let plan = dataframe_sphere::scene_plan(
        w,
        h,
        dataframe_sphere::camera(),
        &dataframe_sphere::sphere(),
    );
    let ball = thing([0.0, 0.0, -1.0], 0.5, [1.0, 0.0, 0.0], 0.0, 0.0);
    let vw = 2.0 * (800.0 / 600.0);
    let batch = run(&plan, grid(w, h));
    compare(&batch, ["s0_r", "s0_g", "s0_b"], |x, y| {
        let d = view(x, y, w as f64, h as f64, vw, 2.0);
        match meet([0.0; 3], d, &ball, false) {
            Some(t) if t > 0.0 => {
                let normal = normal_at(&ball, scale(t, d));
                [
                    (normal[0] + 1.0) * 0.5 * 255.0,
                    (normal[1] + 1.0) * 0.5 * 255.0,
                    (normal[2] + 1.0) * 0.5 * 255.0,
                ]
            }
            _ => [128.0, 178.0, 255.0],
        }
    });
}

#[test]
fn a_sphere_behind_the_camera_is_not_seen() {
    let sphere = dataframe_sphere::Sphere::new(n(0.0), n(0.0), n(1.0), n(0.5));
    let plan = dataframe_sphere::scene_plan(4, 4, square_camera(), &sphere);
    let batch = run(&plan, grid(4, 4));
    assert!(numbers(&batch, "t")[10].unwrap() < 0.0);
    assert!(numbers(&batch, "s0_r").iter().all(|r| *r == Some(128.0)));
}

#[test]
fn colors_of_spheres() {
    let sphere = dataframe_sphere::Sphere::new(n(0.0), n(0.0), n(-1.0), n(0.5));
    assert_eq!((sphere.color_r, sphere.color_g, sphere.color_b), (n(1.0), n(0.0), n(0.0)));
    let green = sphere.with_color(n(0.0), n(1.0), n(0.25));
    assert_eq!((green.color_r, green.color_g, green.color_b), (n(0.0), n(1.0), n(0.25)));
    assert_eq!(green.radius, n(0.5));
    assert_eq!(dataframe_sphere::sphere(), sphere);
}

// ---------------------------------------------------------------------------
// Several spheres
// ---------------------------------------------------------------------------

fn multi_sphere_things() -> Vec<Thing> {
    vec![
        thing([0.0, 0.0, -1.5], 0.5, [1.0, 0.2, 0.2], 0.0, 0.0),
        thing([-0.7, 0.0, -1.0], 0.25, [0.2, 1.0, 0.2], 0.0, 0.0),
        thing([0.6, -0.2, -1.2], 0.35, [0.2, 0.2, 1.0], 0.0, 0.0),
        thing([0.2, 0.3, -1.0], 0.15, [1.0, 1.0, 0.2], 0.0, 0.0),
        thing([0.0, -100.5, -1.0], 100.0, [0.5, 0.5, 0.5], 0.0, 0.0),
    ]
}

#[test]
fn several_spheres_on_plain_numbers() {
    let (w, h) = (24u32, 18u32);
    let spheres = multi_sphere::spheres();
    let plan = multi_sphere::scene_plan(w, h, multi_sphere::camera(), &spheres);
    let things = multi_sphere_things();
    let vw = 2.0 * (800.0 / 600.0);
    let batch = run(&plan, grid(w, h));
    compare(&batch, ["final_r", "final_g", "final_b"], |x, y| {
        let d = view(x, y, w as f64, h as f64, vw, 2.0);
        match first_hit([0.0; 3], d, &things) {
            None => [135.0, 206.0, 235.0],
            Some((_, i)) => {
                let ball = &things[i];
                let t = meet([0.0; 3], d, ball, false).unwrap();
                let normal = normal_at(ball, scale(t, d));
                let shade = |k: usize| ball.color[k] * 255.0 * (0.5 + 0.5 * normal[k]);
                clamp([shade(0), shade(1), shade(2) + 50.0 * (1.0 - normal[2])])
            }
        }
    });
    // Every sphere is seen somewhere
    let hits = indices(&batch, "hit_sphere");
    for i in 0..5 {
        assert!(hits.contains(&Some(i)), "{}", i);
    }
}

#[test]
fn the_nearest_sphere_is_hit() {
    let (w, h) = (24u32, 18u32);
    let spheres = multi_sphere::spheres();
    let plan = multi_sphere::scene_plan(w, h, multi_sphere::camera(), &spheres);
    let batch = run(&plan, grid(w, h));
    let ts: Vec<Vec<Option<f64>>> = ["red", "green", "blue", "yellow", "ground"]
        .iter()
        .map(|name| numbers(&batch, &format!("t_{}", name)))
        .collect();
    let nearest = numbers(&batch, "t_nearest");
    let hits = indices(&batch, "hit_sphere");
    for i in 0..batch.num_rows() {
        let there: Vec<f64> = ts.iter().filter_map(|t| t[i]).collect();
        match nearest[i] {
            None => assert!(there.is_empty() && hits[i].is_none()),
            Some(t) => {
                assert!(there.contains(&t) && there.iter().all(|other| *other >= t));
                let hit = ts[hits[i].unwrap() as usize][i].unwrap();
                assert!((hit - t).abs() < 0.0001);
            }
        }
    }
}

// ---------------------------------------------------------------------------
// Shadows
// ---------------------------------------------------------------------------

fn shadows_things() -> Vec<Thing> {
    vec![
        thing([0.0, 0.0, -1.5], 0.5, [0.9, 0.2, 0.2], 0.0, 0.0),
        thing([-0.9, -0.1, -1.0], 0.35, [0.2, 0.8, 0.2], 0.0, 0.0),
        thing([0.7, -0.2, -1.8], 0.3, [0.2, 0.3, 0.9], 0.0, 0.0),
        thing([-0.2, -0.35, -0.6], 0.15, [0.95, 0.9, 0.1], 0.0, 0.0),
        thing([0.0, -100.5, -1.0], 100.0, [0.4, 0.4, 0.4], 0.0, 0.0),
    ]
}

#[test]
fn shadows_on_plain_numbers() {
    let (w, h) = (24u32, 18u32);
    let light = [-2.0, 3.0, 1.0];
    let plan = shadows::scene_plan(
        w,
        h,
        shadows::camera(),
        &shadows::spheres(),
        &shadows::light(),
        n(0.15),
    );
    let things = shadows_things();
    let vw = 2.0 * (800.0 / 600.0);
    let batch = run(&plan, grid(w, h));
    compare(&batch, ["final_r", "final_g", "final_b"], |x, y| {
        let d = view(x, y, w as f64, h as f64, vw, 2.0);
        match first_hit([0.0; 3], d, &things) {
            None => sky(y, 600.0),
            Some((t, i)) => {
                let p = scale(t, d);
                let normal = normal_at(&things[i], p);
                let o = plus(p, scale(0.001, normal));
                let to_light = sub(light, o);
                let in_shadow = things.iter().any(|other| {
                    meet(o, to_light, other, false).is_some_and(|t| t > 0.001 && t < 1.0)
                });
                clamp(lit_surface(&things[i], brightness(light, 1.0, 0.15, p, normal, in_shadow)))
            }
        }
    });
    let in_shadow = truths(&batch, "in_shadow");
    assert!(in_shadow.contains(&Some(true)) && in_shadow.contains(&Some(false)));
    assert!(!in_shadow.contains(&None));
}

#[test]
fn a_point_in_shadow_has_the_ambient_light() {
    let (w, h) = (24u32, 18u32);
    let plan = shadows::scene_plan(
        w,
        h,
        shadows::camera(),
        &shadows::spheres(),
        &shadows::light(),
        n(0.15),
    );
    let batch = run(&plan, grid(w, h));
    let in_shadow = truths(&batch, "in_shadow");
    let bright = numbers(&batch, "brightness");
    for i in 0..batch.num_rows() {
        if in_shadow[i] == Some(true) {
            assert_eq!(bright[i], Some(0.15));
        }
        assert!(bright[i].is_none_or(|b| b <= 1.0));
    }
}

// ---------------------------------------------------------------------------
// Refraction
// ---------------------------------------------------------------------------

fn refraction_things() -> Vec<Thing> {
    vec![
        thing([0.0, 0.0, -1.2], 0.5, [1.0, 1.0, 1.0], 0.0, 1.5),
        thing([0.8, -0.1, -2.0], 0.4, [0.9, 0.1, 0.1], 0.1, 0.0),
        thing([-0.8, -0.2, -1.5], 0.35, [0.1, 0.2, 0.9], 0.2, 0.0),
        thing([0.0, 0.1, -2.5], 0.5, [0.9, 0.8, 0.1], 0.1, 0.0),
        thing([0.0, -100.5, -1.0], 100.0, [0.4, 0.4, 0.45], 0.2, 0.0),
    ]
}

fn reflect(incident: V, normal: V) -> V {
    sub(incident, scale(2.0 * dot(incident, normal), normal))
}

fn incidence(incident: V, normal: V) -> f64 {
    let cos = 0.0 - dot(incident, normal);
    if cos < 0.0 {
        0.0 - cos
    } else {
        cos
    }
}

fn refract(eta: f64, incident: V, normal: V) -> V {
    let cos_i = incidence(incident, normal);
    let squared = 1.0 - eta * eta * (1.0 - cos_i * cos_i);
    let cos_t = (if squared < 0.0 { 0.0 } else { squared }).sqrt();
    normalized(plus(scale(eta, incident), scale(eta * cos_i - cos_t, normal)))
}

fn lit_color(things: &[Thing], light: V, p: V, i: usize) -> V {
    let normal = normal_at(&things[i], p);
    let o = plus(p, scale(0.001, normal));
    let to_light = sub(light, p);
    let distance = length(to_light);
    let in_shadow = things.iter().filter(|t| t.ior <= 0.0).any(|other| {
        meet(o, normalized(to_light), other, false).is_some_and(|t| t > 0.001 && t < distance)
    });
    lit_surface(&things[i], brightness(light, 1.0, 0.15, p, normal, in_shadow))
}

fn seen_along(things: &[Thing], light: V, o: V, d: V, y: f64) -> V {
    match first_hit_ahead(o, d, things) {
        None => sky(y, 300.0),
        Some((t, i)) => lit_color(things, light, plus(o, scale(t, d)), i),
    }
}

fn mix(a: V, b: V, share: f64) -> V {
    plus(scale(1.0 - share, a), scale(share, b))
}

fn refraction_pixel(things: &[Thing], light: V, x: f64, y: f64, w: f64, h: f64) -> V {
    let d = normalized(view(x, y, w, h, 2.0 * (400.0 / 300.0), 2.0));
    let (t, i) = match first_hit_ahead([0.0; 3], d, things) {
        None => return sky(y, 300.0),
        Some(hit) => hit,
    };
    let p = scale(t, d);
    let normal = normal_at(&things[i], p);
    let reflection =
        seen_along(things, light, plus(p, scale(0.001, normal)), reflect(d, normal), y);
    if things[i].ior > 0.0 {
        let inside = refract(1.0 / 1.5, d, normal);
        let o = sub(p, scale(0.001, normal));
        let behind = match meet(o, inside, &things[0], true).filter(|t| *t > 0.001) {
            None => sky(y, 300.0),
            Some(t) => {
                let exit = plus(o, scale(t, inside));
                let outward = normal_at(&things[0], exit);
                let inward = scale(-1.0, outward);
                let cos_i = incidence(inside, inward);
                let on = if 1.5 * 1.5 * (1.0 - cos_i * cos_i) > 1.0 {
                    reflect(inside, inward)
                } else {
                    refract(1.5, inside, inward)
                };
                seen_along(things, light, plus(exit, scale(0.001, outward)), on, y)
            }
        };
        let r0 = ((1.0f64 - 1.5) / (1.0 + 1.5)).powi(2);
        let fresnel = (r0 + (1.0 - r0) * (1.0 - incidence(d, normal)).powf(5.0)).clamp(0.0, 1.0);
        clamp(mix(behind, reflection, fresnel))
    } else {
        let surface = lit_color(things, light, p, i);
        clamp(mix(surface, reflection, things[i].reflectivity))
    }
}

#[test]
fn refraction_on_plain_numbers() {
    let (w, h) = (28u32, 21u32);
    let spheres = refraction::spheres();
    let plan =
        refraction::scene_plan(w, h, &spheres, &spheres[0], &refraction::light(), n(0.15));
    let things = refraction_things();
    let batch = run(&plan, grid(w, h));
    compare(&batch, ["final_r", "final_g", "final_b"], |x, y| {
        refraction_pixel(&things, [-3.0, 3.0, 1.0], x, y, w as f64, h as f64)
    });
    // The yellow sphere is seen through the glass only
    let hits = indices(&batch, "primary_hit_idx");
    for i in [0, 1, 2, 4] {
        assert!(hits.contains(&Some(i)), "{}", i);
    }
    assert!(hits.contains(&None) && !hits.contains(&Some(3)));
    assert!(indices(&batch, "refract_hit_idx").contains(&Some(3)));
    assert!(numbers(&batch, "fresnel").iter().flatten().all(|f| *f >= 0.0 && *f <= 1.0));
}

#[test]
fn glass_casts_no_shadow() {
    let spheres = refraction::spheres();
    let light = refraction::light();
    let mut plan = Plan::new();
    refraction::compute_shadows(&mut plan, &spheres, &light, "", "hit");
    let opaque: Vec<refraction::Sphere> =
        spheres.iter().filter(|s| !s.is_transparent()).cloned().collect();
    let mut without = Plan::new();
    refraction::compute_shadows(&mut without, &opaque, &light, "", "hit");
    assert_eq!(plan, without);
    assert!(plan.steps.iter().all(|step| step.name != "shadow_t_glass"));
    assert!(plan.steps.iter().any(|step| step.name == "shadow_t_red"));
}

#[test]
fn a_flat_angle_is_reflected_inside_the_glass() {
    let mut plan = Plan::new();
    refraction::compute_refraction_exit(&mut plan);
    let flat = normalized([1.0, 0.0, 0.2]);
    let steep = normalized([0.2, 0.0, 1.0]);
    let column = |values: Vec<f64>| Arc::new(Float64Array::from(values)) as ArrayRef;
    let mut columns = Vec::new();
    for (k, axis) in ["x", "y", "z"].iter().enumerate() {
        columns.push((format!("internal_d{}", axis), column(vec![flat[k], steep[k]])));
        columns.push((format!("exit_{}", axis), column(vec![0.0, 0.0])));
        let outward = [0.0, 0.0, 1.0][k];
        columns.push((format!("exit_normal_{}", axis), column(vec![outward, outward])));
    }
    let batch = run(&plan, table(columns));
    assert_eq!(truths(&batch, "total_internal_reflection"), vec![Some(true), Some(false)]);
    let back = reflect(flat, [0.0, 0.0, -1.0]);
    let on = refract(1.5, steep, [0.0, 0.0, -1.0]);
    for (k, axis) in ["x", "y", "z"].iter().enumerate() {
        let found = numbers(&batch, &format!("refract_d{}", axis));
        assert!(close(found[0].unwrap(), back[k]));
        assert!(close(found[1].unwrap(), on[k]));
    }
    assert!(close(numbers(&batch, "refract_oz")[0].unwrap(), 0.001));
}

// Rows with a vector in three columns for each name
fn vectors(rows: &[&[(&str, V)]]) -> RecordBatch {
    let mut columns = Vec::new();
    for (i, (name, _)) in rows[0].iter().enumerate() {
        for (k, axis) in ["x", "y", "z"].iter().enumerate() {
            let values: Vec<f64> = rows.iter().map(|row| row[i].1[k]).collect();
            let array = Arc::new(Float64Array::from(values)) as ArrayRef;
            columns.push((format!("{}{}", name, axis), array));
        }
    }
    table(columns)
}

fn vector(batch: &RecordBatch, name: &str, row: usize) -> V {
    let component = |axis: &str| numbers(batch, &format!("{}{}", name, axis))[row].unwrap();
    [component("x"), component("y"), component("z")]
}

fn assert_close(found: V, expected: V) {
    for k in 0..3 {
        assert!((found[k] - expected[k]).abs() < 1e-9, "{:?} {:?}", found, expected);
    }
}

#[test]
fn a_ray_that_enters_glass_is_bent_towards_the_normal() {
    let mut plan = Plan::new();
    refraction::compute_refraction_entry(&mut plan);
    let (d, normal) = ([0.6, 0.0, -0.8], [0.0, 0.0, 1.0]);
    let straight = [0.0, 0.0, -1.0];
    let batch = run(
        &plan,
        vectors(&[
            &[("ray_d", d), ("normal_", normal), ("hit_", [0.0; 3])],
            &[("ray_d", straight), ("normal_", normal), ("hit_", [0.0; 3])],
        ]),
    );
    let on = vector(&batch, "internal_d", 0);
    assert_close(on, [0.4, 0.0, -(0.84f64.sqrt())]);
    assert!((length(on) - 1.0).abs() < 1e-9);
    // The sines are in the ratio of the refractive indices
    assert!((1.5 * on[0] - d[0]).abs() < 1e-9);
    assert_close(vector(&batch, "internal_d", 1), straight);
    assert_close(vector(&batch, "internal_o", 0), [0.0, 0.0, -0.001]);
}

#[test]
fn a_ray_that_leaves_glass_is_bent_from_the_normal() {
    let mut plan = Plan::new();
    refraction::compute_refraction_exit(&mut plan);
    let batch = run(
        &plan,
        vectors(&[&[
            ("internal_d", [0.6, 0.0, -0.8]),
            ("exit_", [0.0, 0.0, -2.0]),
            ("exit_normal_", [0.0, 0.0, -1.0]),
        ]]),
    );
    assert_eq!(truths(&batch, "total_internal_reflection"), vec![Some(false)]);
    assert_close(vector(&batch, "refract_d", 0), [0.9, 0.0, -(0.19f64.sqrt())]);
    assert_close(vector(&batch, "refract_o", 0), [0.0, 0.0, -2.001]);
}

#[test]
fn a_ray_from_inside_meets_the_sphere_ahead() {
    let sphere = refraction::Sphere::new("s", n(0.0), n(0.0), n(0.0), n(1.0));
    let mut plan = Plan::new();
    refraction::intersect_sphere_generic(&mut plan, &sphere, "ray", "primary");
    let toward = [0.0, 0.0, -1.0];
    let batch = run(
        &plan,
        vectors(&[
            &[("ray_o", [0.0, 0.0, 0.0]), ("ray_d", toward)],
            &[("ray_o", [0.0, 0.0, 3.0]), ("ray_d", toward)],
            &[("ray_o", [0.0, 0.0, -3.0]), ("ray_d", toward)],
            &[("ray_o", [2.0, 0.0, 3.0]), ("ray_d", toward)],
            &[("ray_o", [0.0, 0.0, 1.0]), ("ray_d", toward)],
        ]),
    );
    let expected = vec![Some(1.0), Some(2.0), None, None, Some(2.0)];
    assert_eq!(numbers(&batch, "primary_t_s"), expected);
}

#[test]
fn a_sphere_behind_the_light_casts_no_shadow() {
    let plan_for = |z: f64| {
        let mut plan = Plan::new();
        let (x, y, radius) = (n(0.0), n(0.0), n(0.5));
        let sphere = shadows::Sphere::new("s", x, y, n(z), radius);
        shadows::shadow_intersect_sphere(&mut plan, &sphere);
        plan
    };
    let ray = |distance: f64| {
        let start = vectors(&[&[("shadow_o", [0.0; 3]), ("shadow_d", [0.0, 0.0, -distance])]]);
        let mut plan = Plan::new();
        plan.with_column("light_dist", datafusion_raytracer::formula::lit(n(distance)));
        run(&plan, start)
    };
    let found = |distance: f64, z: f64| numbers(&run(&plan_for(z), ray(distance)), "shadow_t_s")[0];
    assert_eq!(found(2.0, -3.0), None);
    assert_eq!(found(4.0, -3.0), Some(0.625));
    assert_eq!(found(2.0, 3.0), None);
    // A light nearer than one away is still shaded by what is before it
    assert_eq!(found(0.5, -0.75), Some(0.5));
    assert_eq!(found(0.5, -1.25), None);
}

#[test]
fn the_shadow_ray_reaches_the_light_at_one() {
    let mut plan = Plan::new();
    shadows::compute_shadow_ray(&mut plan, &shadows::light());
    let batch = run(
        &plan,
        vectors(&[
            &[("hit_", [0.0, 0.0, -1.0]), ("normal_", [0.0, 0.0, 1.0])],
            &[("hit_", [-1.5, 2.5, 0.5]), ("normal_", [0.0, 1.0, 0.0])],
        ]),
    );
    for row in 0..2 {
        let (o, d) = (vector(&batch, "shadow_o", row), vector(&batch, "shadow_d", row));
        assert_close(plus(o, d), [-2.0, 3.0, 1.0]);
        assert!((numbers(&batch, "light_dist")[row].unwrap() - length(d)).abs() < 1e-9);
    }
}

#[test]
fn a_ray_reflected_twice_has_its_direction_again() {
    let mut plan = Plan::new();
    refraction::compute_reflection_ray(&mut plan);
    let (d, normal) = ([1.0, -2.0, -3.0], normalized([0.6, 0.0, 0.8]));
    let reflect_at = |d: V| {
        let row = [("ray_d", d), ("normal_", normal), ("hit_", [0.0; 3])];
        vector(&run(&plan, vectors(&[&row])), "reflect_d", 0)
    };
    let once = reflect_at(d);
    assert_close(once, [3.16, -2.0, -0.12]);
    assert!((dot(once, normal) + dot(d, normal)).abs() < 1e-9);
    assert!((length(once) - length(d)).abs() < 1e-9);
    assert_close(reflect_at(once), d);
}

#[test]
fn the_reflected_share_falls_as_the_ray_gets_steeper() {
    let mut plan = Plan::new();
    refraction::compute_refraction_entry(&mut plan);
    let rows: Vec<Vec<(&str, V)>> = (0..=20)
        .map(|i| {
            let cos = i as f64 / 20.0;
            let d = [(1.0 - cos * cos).sqrt(), 0.0, -cos];
            vec![("ray_d", d), ("normal_", [0.0, 0.0, 1.0]), ("hit_", [0.0; 3])]
        })
        .collect();
    let slices: Vec<&[(&str, V)]> = rows.iter().map(|row| row.as_slice()).collect();
    let shares: Vec<f64> =
        numbers(&run(&plan, vectors(&slices)), "fresnel").into_iter().flatten().collect();
    assert_eq!(shares.len(), 21);
    assert_eq!(shares[0], 1.0);
    assert!((shares[20] - 0.04).abs() < 1e-9);
    assert!(shares.windows(2).all(|pair| pair[1] <= pair[0]));
}

fn glass_row(bright: f64, share: f64) -> RecordBatch {
    let number = |value: f64| Arc::new(Float64Array::from(vec![value])) as ArrayRef;
    let index = |value: i32| Arc::new(Int32Array::from(vec![value])) as ArrayRef;
    table(vec![
        ("y".to_string(), number(10.0)),
        ("primary_t_nearest".to_string(), number(0.7)),
        ("primary_hit_idx".to_string(), index(0)),
        ("hit_ior".to_string(), number(1.5)),
        ("fresnel".to_string(), number(share)),
        ("primary_brightness".to_string(), number(bright)),
        ("reflect_brightness".to_string(), number(0.5)),
        ("refract_brightness".to_string(), number(0.25)),
        ("reflect_hit_idx".to_string(), index(1)),
        ("refract_hit_idx".to_string(), index(3)),
    ])
}

#[test]
fn glass_has_no_shading_of_its_own() {
    let mut plan = Plan::new();
    refraction::compute_final_color(&mut plan, &refraction::spheres());
    let color = |bright: f64, share: f64| {
        let batch = run(&plan, glass_row(bright, share));
        ["final_r", "final_g", "final_b"].map(|name| numbers(&batch, name)[0].unwrap())
    };
    let things = refraction_things();
    let (reflection, behind) = (lit_surface(&things[1], 0.5), lit_surface(&things[3], 0.25));
    assert_eq!(color(0.15, 0.25), color(1.0, 0.25));
    assert_close(color(0.15, 0.25), mix(behind, reflection, 0.25));
    assert_close(color(0.15, 1.0), reflection);
    assert_close(color(0.15, 0.0), behind);
}

#[test]
fn further_spheres_never_bring_light() {
    let spheres = refraction::spheres();
    let light = refraction::light();
    // A point on the ground
    let rows: Vec<Vec<(&str, V)>> = (0..40)
        .map(|i| {
            let p = [-1.0 + 0.1 * (i % 8) as f64, -0.5, -2.5 + 0.3 * (i / 8) as f64];
            vec![("hit_", p), ("normal_", [0.0, 1.0, 0.0])]
        })
        .collect();
    let slices: Vec<&[(&str, V)]> = rows.iter().map(|row| row.as_slice()).collect();
    let mut before = vec![Some(false); 40];
    let mut counts = Vec::new();
    for k in 0..=4 {
        let mut plan = Plan::new();
        refraction::compute_shadows(&mut plan, &spheres[..k].to_vec(), &light, "", "hit");
        let in_shadow = truths(&run(&plan, vectors(&slices)), "in_shadow");
        for i in 0..40 {
            assert!(before[i] != Some(true) || in_shadow[i] == Some(true));
        }
        counts.push(in_shadow.iter().filter(|shadow| **shadow == Some(true)).count());
        before = in_shadow;
    }
    // Nothing and glass alone cast no shadow
    assert_eq!((counts[0], counts[1]), (0, 0));
    assert!(counts[4] > 0);
}

#[test]
fn materials() {
    let sphere = refraction::Sphere::new("s", n(1.0), n(2.0), n(3.0), n(4.0));
    assert_eq!(sphere.name, "s");
    assert_eq!((sphere.color_r, sphere.color_g, sphere.color_b), (n(1.0), n(1.0), n(1.0)));
    assert!(!sphere.is_transparent());
    let shiny = sphere.clone().with_reflectivity(n(1.5));
    assert_eq!(shiny.reflectivity, n(1.0));
    assert_eq!(shiny.clone().with_reflectivity(n(-0.5)).reflectivity, n(0.0));
    assert_eq!(shiny.clone().with_reflectivity(n(0.25)).reflectivity, n(0.25));
    let glass = shiny.with_glass(n(1.5));
    assert!(glass.is_transparent());
    assert_eq!((glass.reflectivity, glass.refractive_index), (n(0.0), n(1.5)));
    assert_eq!(glass.with_color(n(0.1), n(0.2), n(0.3)).color_b, n(0.3));
}

// ---------------------------------------------------------------------------
// Whole renderings
// ---------------------------------------------------------------------------

fn check_rendering(rendering: &Rendering, width: u32, height: u32, path: &str) {
    assert_eq!((rendering.width, rendering.height), (width, height));
    assert_eq!(rendering.path, path);
    assert_eq!(
        rendering.query,
        format!(
            "SELECT CAST(x AS DOUBLE) as x, CAST(y AS DOUBLE) as y FROM generate_series(0, {}) AS t1(x), generate_series(0, {}) AS t2(y)",
            width - 1,
            height - 1
        )
    );
    let output = project(rendering.projection.as_ref().unwrap(), &run(&rendering.plan, grid(4, 3)));
    let names: Vec<String> =
        output.schema().fields().iter().map(|field| field.name().clone()).collect();
    assert_eq!(names, ["x", "y", "r", "g", "b"]);
    let rows = read_rows(&vec![Batch { record_batch: output.clone() }]).unwrap();
    let places: Vec<(Option<u32>, Option<u32>)> = rows.iter().map(|row| (row.x, row.y)).collect();
    let mut expected = Vec::new();
    for y in 0..3 {
        for x in 0..4 {
            expected.push((Some(x), Some(y)));
        }
    }
    assert_eq!(places, expected);
    assert!(rows.iter().all(|row: &Row| row.r <= 255 && row.g <= 255 && row.b <= 255));
    let text = write_ppm(&vec![Batch { record_batch: output }], 4, 3).unwrap();
    assert!(text.starts_with("P3\n4 3\n255\n"));
    assert_eq!(text.lines().count(), 6);
}

#[test]
fn rendering_of_the_single_sphere() {
    check_rendering(&dataframe_sphere::render(), 800, 600, "dataframe_sphere.ppm");
}

#[test]
fn rendering_of_several_spheres() {
    check_rendering(&multi_sphere::render(), 800, 600, "multi_sphere.ppm");
}

#[test]
fn rendering_of_shadows() {
    check_rendering(&shadows::render(), 800, 600, "shadows.ppm");
}

#[test]
fn rendering_of_refraction() {
    check_rendering(&refraction::render(), 400, 300, "refraction.ppm");
}

#[test]
fn colors_are_converted_downwards() {
    let mut plan = Plan::new();
    for (name, value) in [("r0", 12.9), ("g0", 255.0), ("b0", 0.0)] {
        plan.with_column(name, datafusion_raytracer::formula::lit(n(value)));
    }
    let output = project(&Projection::pixels("r0", "g0", "b0"), &run(&plan, grid(1, 1)));
    let rows = read_rows(&vec![Batch { record_batch: output }]).unwrap();
    assert_eq!(rows, vec![Row { x: Some(0), y: Some(0), r: 12, g: 255, b: 0 }]);
}
