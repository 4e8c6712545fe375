use datafusion_raytracer::number::{
    Number, CHANNEL_MAX, FIVE, HALF, ONE, TEN_THOUSANDTH, THOUSANDTH, TWO, ZERO,
};
use datafusion_raytracer::{dataframe_sphere, multi_sphere, refraction, shadows, sphere};

#[test]
fn named_numbers() {
    assert_eq!(ZERO, 0.0f64.to_bits());
    assert_eq!(TEN_THOUSANDTH, 0.0001f64.to_bits());
    assert_eq!(THOUSANDTH, 0.001f64.to_bits());
    assert_eq!(HALF, 0.5f64.to_bits());
    assert_eq!(ONE, 1.0f64.to_bits());
    assert_eq!(TWO, 2.0f64.to_bits());
    assert_eq!(FIVE, 5.0f64.to_bits());
    assert_eq!(CHANNEL_MAX, 255.0f64.to_bits());
}

#[test]
fn whole_numbers() {
    for n in [0u32, 1, 2, 3, 10, 255, 256, 300, 400, 600, 800, 65535, 16777217, u32::MAX - 1, u32::MAX] {
        assert_eq!(Number::whole(n).bits, (n as f64).to_bits());
    }
}

#[test]
fn negated_numbers() {
    for v in [0.0f64, -0.0, 1.0, -2.5, f64::INFINITY, f64::MIN_POSITIVE] {
        assert_eq!(Number::of(v.to_bits()).negated().bits, (-v).to_bits());
    }
}

#[test]
fn positive_numbers() {
    for v in [0.0f64, -0.0, 1.0, -1.0, f64::NAN, -f64::NAN, f64::INFINITY, -f64::INFINITY, 5e-324] {
        assert_eq!(Number::of(v.to_bits()).is_positive(), v > 0.0);
    }
}

#[test]
fn numbers_brought_into_the_unit_range() {
    for v in [0.0f64, -0.0, 0.3, 1.0, 1.5, -0.1, f64::NAN, f64::INFINITY, -f64::INFINITY, 5e-324] {
        assert_eq!(
            Number::of(v.to_bits()).clamped_to_unit().bits,
            v.clamp(0.0, 1.0).to_bits()
        );
    }
}

#[test]
fn camera_settings() {
    let wide = (2.0 * (800.0f64 / 600.0)).to_bits();
    assert_eq!(dataframe_sphere::VIEWPORT_WIDTH, wide);
    assert_eq!(multi_sphere::VIEWPORT_WIDTH, wide);
    assert_eq!(shadows::VIEWPORT_WIDTH, wide);
    assert_eq!(refraction::VIEWPORT_WIDTH, (2.0 * (400.0f64 / 300.0)).to_bits());
    assert_eq!(refraction::VIEWPORT_HEIGHT, 2.0f64.to_bits());
    assert_eq!(refraction::FOCAL_LENGTH, 1.0f64.to_bits());
    assert_eq!(dataframe_sphere::camera().viewport_width.bits, wide);
    assert_eq!(multi_sphere::camera().viewport_height.bits, 2.0f64.to_bits());
    assert_eq!(shadows::camera().focal_length.bits, 1.0f64.to_bits());
    assert_eq!(sphere::VIEWPORT_WIDTH, format!("{}", 2.0 * (800.0f64 / 600.0)));
    assert_eq!(sphere::VIEWPORT_HEIGHT, format!("{}", 2.0f64));
    assert_eq!(sphere::FOCAL_LENGTH, format!("{}", 1.0f64));
    assert_eq!(sphere::SPHERE_CENTER_X, format!("{}", 0.0f64));
    assert_eq!(sphere::SPHERE_CENTER_Y, format!("{}", 0.0f64));
    assert_eq!(sphere::SPHERE_CENTER_Z, format!("{}", -1.0f64));
    assert_eq!(sphere::SPHERE_RADIUS, format!("{}", 0.5f64));
}

#[test]
fn optics() {
    let (air, glass) = (1.0f64, 1.5f64);
    assert_eq!(refraction::GLASS_IOR, glass.to_bits());
    assert_eq!(refraction::AIR_OVER_GLASS, (air / glass).to_bits());
    assert_eq!(refraction::GLASS_OVER_AIR, (glass / air).to_bits());
    let r0 = ((air - glass) / (air + glass)).powi(2);
    assert_eq!(refraction::STRAIGHT_REFLECTANCE, r0.to_bits());
    assert_eq!(refraction::RAY_BIAS, 0.001f64.to_bits());
    assert_eq!(refraction::SHADOW_BIAS, 0.001f64.to_bits());
    assert_eq!(shadows::SHADOW_BIAS, 0.001f64.to_bits());
}

#[test]
fn colors_of_the_background() {
    assert_eq!(dataframe_sphere::BACKGROUND_R, 128.0f64.to_bits());
    assert_eq!(dataframe_sphere::BACKGROUND_G, 178.0f64.to_bits());
    assert_eq!(dataframe_sphere::BACKGROUND_B, 255.0f64.to_bits());
    assert_eq!(multi_sphere::SKY_R, 135.0f64.to_bits());
    assert_eq!(multi_sphere::SKY_G, 206.0f64.to_bits());
    assert_eq!(multi_sphere::SKY_B, 235.0f64.to_bits());
    assert_eq!(shadows::HORIZON_R, 135.0f64.to_bits());
    assert_eq!(shadows::HORIZON_G, 206.0f64.to_bits());
    assert_eq!(shadows::HORIZON_B, 250.0f64.to_bits());
    assert_eq!(refraction::HORIZON_R, 135.0f64.to_bits());
    assert_eq!(refraction::HORIZON_G, 206.0f64.to_bits());
    assert_eq!(refraction::HORIZON_B, 250.0f64.to_bits());
    assert_eq!(shadows::AMBIENT, 0.15f64.to_bits());
    assert_eq!(refraction::AMBIENT, 0.15f64.to_bits());
}
