use datafusion::arrow::datatypes::{DataType, Field, IntervalUnit, Schema};
use datafusion::common::{DFSchema, ScalarValue};
use datafusion::functions::math::expr_fn;
use datafusion::logical_expr::{
    case, col as engine_col, lit as engine_lit, Expr, ExprSchemable,
};
use datafusion_raytracer::engine::{lower, select, EngineError};
use datafusion_raytracer::formula::{col, lit, num, Formula};
use datafusion_raytracer::number::{Number, HALF, ONE};
use datafusion_raytracer::plan::{Output, Projection};

fn lowered(formula: Formula) -> Expr {
    lower(&formula).unwrap()
}

#[test]
fn columns() {
    assert_eq!(lowered(col("ray_dx")), engine_col("ray_dx"));
    assert_eq!(lowered(col("t_Red")), engine_col("t_Red"));
    assert_eq!(lowered(col("t_Red")), lowered(col("t_red")));
    assert_ne!(lowered(col("t_red")), lowered(col("t_blue")));
}

#[test]
fn literals() {
    assert_eq!(lowered(num(HALF)), engine_lit(0.5f64));
    assert_eq!(lowered(lit(Number::of((-100.5f64).to_bits()))), engine_lit(-100.5f64));
    assert_eq!(lowered(Formula::Index(3)), engine_lit(3i32));
    assert_eq!(lowered(Formula::Index(-1)), engine_lit(-1i32));
    assert_eq!(lowered(Formula::Truth(true)), engine_lit(true));
    assert_eq!(lowered(Formula::Truth(false)), engine_lit(false));
    assert_eq!(lowered(Formula::NullNumber), engine_lit(ScalarValue::Float64(None)));
    assert_eq!(lowered(Formula::NullIndex), engine_lit(ScalarValue::Int32(None)));
}

#[test]
fn operators() {
    let a = || engine_col("a");
    let b = || engine_col("b");
    assert_eq!(lowered(col("a").plus(col("b"))), a() + b());
    assert_eq!(lowered(col("a").minus(col("b"))), a() - b());
    assert_eq!(lowered(col("a").times(col("b"))), a() * b());
    assert_eq!(lowered(col("a").over(col("b"))), a() / b());
    assert_eq!(lowered(col("a").lt(col("b"))), a().lt(b()));
    assert_eq!(lowered(col("a").gt(col("b"))), a().gt(b()));
    assert_eq!(lowered(col("a").gt_eq(col("b"))), a().gt_eq(b()));
    assert_eq!(lowered(col("a").equals(col("b"))), a().eq(b()));
    assert_eq!(lowered(col("a").and(col("b"))), a().and(b()));
    assert_eq!(lowered(col("a").or(col("b"))), a().or(b()));
}

#[test]
fn functions() {
    let a = || engine_col("a");
    assert_eq!(lowered(col("a").is_null()), a().is_null());
    assert_eq!(lowered(col("a").is_not_null()), a().is_not_null());
    assert_eq!(lowered(col("a").sqrt()), expr_fn::sqrt(a()));
    assert_eq!(lowered(col("a").abs()), expr_fn::abs(a()));
    assert_eq!(
        lowered(col("a").power(num(HALF))),
        expr_fn::power(a(), engine_lit(0.5f64))
    );
}

#[test]
fn cases() {
    let expected = case(engine_col("c"))
        .when(engine_lit(true), engine_lit(1.0f64))
        .otherwise(engine_col("a"))
        .unwrap();
    assert_eq!(lowered(col("c").case(num(ONE), col("a"))), expected);
    let missing = case(engine_col("c"))
        .when(engine_lit(true), engine_lit(1.0f64))
        .otherwise(engine_lit(ScalarValue::Float64(None)))
        .unwrap();
    assert_eq!(lowered(col("c").case(num(ONE), Formula::NullNumber)), missing);
}

#[test]
fn a_case_with_literals_of_different_kinds() {
    for (value, otherwise) in [
        (num(ONE), Formula::Index(1)),
        (Formula::Index(1), Formula::Truth(true)),
        (Formula::NullNumber, Formula::NullIndex),
        (Formula::Truth(false), num(ONE)),
    ] {
        let bad = col("c").case(value, otherwise);
        let inside = col("a").plus(bad.copy().sqrt());
        assert!(matches!(lower(&bad), Err(EngineError::Case(_))));
        assert!(matches!(lower(&inside), Err(EngineError::Case(_))));
    }
}

fn schema() -> DFSchema {
    let schema = Schema::new(vec![
        Field::new("x", DataType::Float64, true),
        Field::new("y", DataType::UInt32, true),
        Field::new("when", DataType::Interval(IntervalUnit::DayTime), true),
    ]);
    DFSchema::try_from(schema).unwrap()
}

fn projection(source: &str) -> Projection {
    Projection { outputs: vec![Output { source: source.to_string(), name: "n".to_string() }] }
}

#[test]
fn result_columns() {
    let converted = select(&projection("x"), &schema()).unwrap();
    assert_eq!(
        converted,
        vec![engine_col("x").cast_to(&DataType::UInt32, &schema()).unwrap().alias("n")]
    );
    assert_eq!(select(&projection("y"), &schema()).unwrap(), vec![engine_col("y").alias("n")]);
    assert_ne!(converted, vec![engine_col("x").alias("n")]);
}

#[test]
fn result_columns_that_are_not_there() {
    assert!(matches!(select(&projection("z"), &schema()), Err(EngineError::Column(_))));
}

#[test]
fn result_columns_that_cannot_be_converted() {
    assert!(matches!(select(&projection("when"), &schema()), Err(EngineError::Column(_))));
}

#[test]
fn the_result_that_holds_pixels() {
    let pixels = Projection::pixels("final_r", "final_g", "final_b");
    let pairs: Vec<(&str, &str)> =
        pixels.outputs.iter().map(|o| (o.source.as_str(), o.name.as_str())).collect();
    assert_eq!(
        pairs,
        vec![("x", "x"), ("y", "y"), ("final_r", "r"), ("final_g", "g"), ("final_b", "b")]
    );
}
