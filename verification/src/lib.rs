//! A ray tracer in which every pixel is a row of a table and every step of the
//! tracing a column that a query engine computes.
pub mod agreement;
pub mod choice;
pub mod dataframe_sphere;
pub mod drawing;
pub mod engine;
pub mod exhibition;
pub mod formula;
pub mod gallery;
pub mod geometry;
pub mod glass_names;
pub mod glass_portrait;
pub mod gradient;
pub mod ideal;
pub mod meaning;
pub mod multi_sphere;
pub mod number;
pub mod optics;
pub mod picture;
pub mod places;
pub mod plainness;
pub mod plan;
pub mod portrait;
pub mod ppm;
pub mod refraction;
pub mod refraction_soundness;
pub mod scene;
pub mod shadows;
pub mod shadows_portrait;
pub mod soundness;
pub mod sphere;
pub mod spheres_portrait;
pub mod sql;
pub mod template;
pub mod text;
pub mod trace;
pub mod vector;
pub mod visibility;
