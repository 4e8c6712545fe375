use datafusion::arrow::array::{ArrayRef, Float64Array, UInt32Array};
use datafusion::arrow::datatypes::{DataType, Field, Schema};
use datafusion::arrow::record_batch::RecordBatch;
use datafusion_raytracer::ppm::{
    encode, paint, read_rows, write_ppm, Batch, ColumnFault, ColumnName, Row,
};
use std::sync::Arc;

fn batch(columns: Vec<(&str, ArrayRef)>) -> Batch {
    let fields: Vec<Field> = columns
        .iter()
        .map(|(name, array)| Field::new(*name, array.data_type().clone(), true))
        .collect();
    let arrays: Vec<ArrayRef> = columns.into_iter().map(|(_, array)| array).collect();
    Batch { record_batch: RecordBatch::try_new(Arc::new(Schema::new(fields)), arrays).unwrap() }
}

fn create_test_batch(pixels: &[(u32, u32, u32, u32, u32)]) -> Batch {
    let schema = Arc::new(Schema::new(vec![
        Field::new("x", DataType::UInt32, false),
        Field::new("y", DataType::UInt32, false),
        Field::new("r", DataType::UInt32, false),
        Field::new("g", DataType::UInt32, false),
        Field::new("b", DataType::UInt32, false),
    ]));
    let x: Vec<u32> = pixels.iter().map(|p| p.0).collect();
    let y: Vec<u32> = pixels.iter().map(|p| p.1).collect();
    let r: Vec<u32> = pixels.iter().map(|p| p.2).collect();
    let g: Vec<u32> = pixels.iter().map(|p| p.3).collect();
    let b: Vec<u32> = pixels.iter().map(|p| p.4).collect();
    let record_batch = RecordBatch::try_new(
        schema,
        vec![
            Arc::new(UInt32Array::from(x)),
            Arc::new(UInt32Array::from(y)),
            Arc::new(UInt32Array::from(r)),
            Arc::new(UInt32Array::from(g)),
            Arc::new(UInt32Array::from(b)),
        ],
    )
    .unwrap();
    Batch { record_batch }
}

fn row(x: u32, y: u32, r: u32, g: u32, b: u32) -> Row {
    Row { x: Some(x), y: Some(y), r, g, b }
}

#[test]
fn test_write_ppm_simple() {
    // 2x2 image: red, green, blue, white
    let batch = create_test_batch(&[
        (0, 0, 255, 0, 0),     // top-left: red
        (1, 0, 0, 255, 0),     // top-right: green
        (0, 1, 0, 0, 255),     // bottom-left: blue
        (1, 1, 255, 255, 255), // bottom-right: white
    ]);

    let content = write_ppm(&vec![batch], 2, 2).unwrap();

    assert!(content.starts_with("P3\n2 2\n255\n"));
    assert!(content.contains("255 0 0")); // red
    assert!(content.contains("0 255 0")); // green
    assert!(content.contains("0 0 255")); // blue
    assert!(content.contains("255 255 255")); // white
}

#[test]
fn test_write_ppm_unordered_batches() {
    // Pixels out of order across batches
    let batch1 = create_test_batch(&[
        (1, 1, 255, 255, 255), // bottom-right first
        (0, 0, 255, 0, 0),     // top-left
    ]);
    let batch2 = create_test_batch(&[
        (0, 1, 0, 0, 255), // bottom-left
        (1, 0, 0, 255, 0), // top-right
    ]);

    let content = write_ppm(&vec![batch1, batch2], 2, 2).unwrap();
    let lines: Vec<&str> = content.lines().collect();

    // Header
    assert_eq!(lines[0], "P3");
    assert_eq!(lines[1], "2 2");
    assert_eq!(lines[2], "255");

    // First row should be: red, green (regardless of batch order)
    assert!(lines[3].contains("255 0 0"));
    assert!(lines[3].contains("0 255 0"));
}

#[test]
fn the_whole_file() {
    let batch = create_test_batch(&[(1, 0, 7, 80, 255), (0, 1, 256, 1000, 4294967295)]);
    assert_eq!(
        write_ppm(&vec![batch], 3, 2).unwrap(),
        "P3\n3 2\n255\n0 0 0 7 80 255 0 0 0 \n255 255 255 0 0 0 0 0 0 \n"
    );
}

#[test]
fn no_batches_give_a_black_image() {
    assert_eq!(write_ppm(&Vec::new(), 2, 1).unwrap(), "P3\n2 1\n255\n0 0 0 0 0 0 \n");
}

#[test]
fn an_image_without_pixels() {
    assert_eq!(write_ppm(&Vec::new(), 0, 2).unwrap(), "P3\n0 2\n255\n\n\n");
    assert_eq!(write_ppm(&Vec::new(), 2, 0).unwrap(), "P3\n2 0\n255\n");
}

#[test]
fn rows_without_a_place_do_not_matter() {
    let one = batch(vec![
        ("x", Arc::new(UInt32Array::from(vec![Some(0), None, Some(0), Some(2)])) as ArrayRef),
        ("y", Arc::new(UInt32Array::from(vec![Some(0), Some(0), None, Some(0)]))),
        ("r", Arc::new(UInt32Array::from(vec![1, 2, 3, 4]))),
        ("g", Arc::new(UInt32Array::from(vec![1, 2, 3, 4]))),
        ("b", Arc::new(UInt32Array::from(vec![1, 2, 3, 4]))),
    ]);
    let rows = read_rows(&vec![one]).unwrap();
    assert_eq!(
        rows,
        vec![
            row(0, 0, 1, 1, 1),
            Row { x: None, y: Some(0), r: 2, g: 2, b: 2 },
            Row { x: Some(0), y: None, r: 3, g: 3, b: 3 },
            row(2, 0, 4, 4, 4),
        ]
    );
    assert_eq!(paint(&rows, 2, 1), vec![(1, 1, 1), (0, 0, 0)]);
    assert_eq!(paint(&vec![rows[0]], 2, 1), paint(&rows, 2, 1));
}

#[test]
fn the_last_row_for_a_pixel_decides() {
    let rows = vec![row(0, 0, 1, 2, 3), row(1, 0, 4, 5, 6), row(0, 0, 7, 8, 9)];
    assert_eq!(paint(&rows, 2, 1), vec![(7, 8, 9), (4, 5, 6)]);
}

#[test]
fn the_order_of_distinct_pixels_does_not_matter() {
    let rows = vec![row(0, 0, 1, 2, 3), row(1, 0, 4, 5, 6), row(1, 1, 7, 8, 9)];
    let turned = vec![rows[2], rows[0], rows[1]];
    assert_eq!(paint(&rows, 2, 2), paint(&turned, 2, 2));
}

#[test]
fn how_rows_are_cut_into_batches_does_not_matter() {
    let pixels = [(0, 0, 1, 2, 3), (1, 0, 4, 5, 6), (0, 0, 7, 8, 9)];
    let whole = vec![create_test_batch(&pixels)];
    let cut = vec![create_test_batch(&pixels[..1]), create_test_batch(&pixels[1..])];
    assert_eq!(read_rows(&whole).unwrap(), read_rows(&cut).unwrap());
    assert_eq!(write_ppm(&whole, 2, 1), write_ppm(&cut, 2, 1));
}

#[test]
fn different_images_have_different_files() {
    let one = encode(&vec![(1, 12, 3)], 1, 1);
    let two = encode(&vec![(11, 2, 3)], 1, 1);
    assert_eq!(one, "P3\n1 1\n255\n1 12 3 \n");
    assert_ne!(one, two);
    assert_ne!(encode(&vec![(0, 0, 0); 2], 2, 1), encode(&vec![(0, 0, 0); 2], 1, 2));
}

#[test]
fn a_place_outside_of_the_image() {
    let rows = vec![row(2, 0, 1, 1, 1), row(0, 2, 1, 1, 1), row(4294967295, 4294967295, 1, 1, 1)];
    assert_eq!(paint(&rows, 2, 2), vec![(0, 0, 0); 4]);
}

#[test]
fn every_column_must_be_there() {
    let names = ["x", "y", "r", "g", "b"];
    let columns = [ColumnName::X, ColumnName::Y, ColumnName::R, ColumnName::G, ColumnName::B];
    for missing in 0..5 {
        let there: Vec<(&str, ArrayRef)> = names
            .iter()
            .enumerate()
            .filter(|(i, _)| *i != missing)
            .map(|(_, name)| (*name, Arc::new(UInt32Array::from(vec![0])) as ArrayRef))
            .collect();
        let fault = write_ppm(&vec![batch(there)], 1, 1).unwrap_err();
        assert_eq!(fault, ColumnFault::Missing(columns[missing]));
        assert_eq!(fault.message(), format!("missing '{}' column", names[missing]));
        assert_eq!(columns[missing].name(), names[missing]);
    }
}

#[test]
fn every_column_must_hold_unsigned_integers() {
    let names = ["x", "y", "r", "g", "b"];
    let columns = [ColumnName::X, ColumnName::Y, ColumnName::R, ColumnName::G, ColumnName::B];
    for wrong in 0..5 {
        let there: Vec<(&str, ArrayRef)> = names
            .iter()
            .enumerate()
            .map(|(i, name)| {
                if i == wrong {
                    (*name, Arc::new(Float64Array::from(vec![0.0])) as ArrayRef)
                } else {
                    (*name, Arc::new(UInt32Array::from(vec![0])) as ArrayRef)
                }
            })
            .collect();
        let fault = write_ppm(&vec![batch(there)], 1, 1).unwrap_err();
        assert_eq!(fault, ColumnFault::NotUInt32(columns[wrong]));
        assert_eq!(fault.message(), format!("'{}' column must be UInt32", names[wrong]));
    }
}

#[test]
fn the_first_fault_counts() {
    let good = create_test_batch(&[(0, 0, 1, 1, 1)]);
    let bad = batch(vec![
        ("x", Arc::new(UInt32Array::from(vec![0])) as ArrayRef),
        ("y", Arc::new(Float64Array::from(vec![0.0]))),
    ]);
    let worse = batch(vec![("y", Arc::new(UInt32Array::from(vec![0])) as ArrayRef)]);
    assert_eq!(
        read_rows(&vec![good, bad, worse]).unwrap_err(),
        ColumnFault::NotUInt32(ColumnName::Y)
    );
}

#[test]
fn the_first_of_two_columns_of_a_name_counts() {
    let twice = batch(vec![
        ("x", Arc::new(UInt32Array::from(vec![0])) as ArrayRef),
        ("y", Arc::new(UInt32Array::from(vec![0]))),
        ("r", Arc::new(UInt32Array::from(vec![1]))),
        ("g", Arc::new(UInt32Array::from(vec![2]))),
        ("b", Arc::new(UInt32Array::from(vec![3]))),
        ("r", Arc::new(Float64Array::from(vec![9.0]))),
    ]);
    assert_eq!(write_ppm(&vec![twice], 1, 1).unwrap(), "P3\n1 1\n255\n1 2 3 \n");
}
