//! Images in the PPM format.
//!
//! PPM (Portable Pixel Map) is a simple ASCII image format:
//! ```text
//! P3
//! width height
//! max_color_value
//! r g b r g b ...
//! ```
use crate::picture::{
    capped, is_in_file, is_last_for, law_row_decides_pixel, law_row_in_file,
};
use crate::text::{decimal, is_digit, law_decimal_injective, law_decimal_is_digits, push_decimal};
use datafusion::arrow::array::Array;
use vstd::prelude::*;

verus! {

// ---------------------------------------------------------------------------
// Tables of pixels
// ---------------------------------------------------------------------------

/// A piece of a table that a query gave, in the form in which the engine hands it out.
#[verifier::external_body]
pub struct Batch {
    pub record_batch: datafusion::arrow::record_batch::RecordBatch,
}

/// A column of a batch, of any type.
#[verifier::external_body]
pub struct Column {
    array: datafusion::arrow::array::ArrayRef,
}

/// A column of unsigned integers of 32 bits.
#[verifier::external_body]
pub struct Cells {
    array: datafusion::arrow::array::UInt32Array,
}

/// The cells of a column: whether each is empty, and the number that is stored there.
pub type Slots = Seq<(bool, u32)>;

/// The columns of a batch by name, those that come first where a name is used
/// twice; nothing for a column that does not hold unsigned integers of 32 bits.
pub uninterp spec fn columns_of(batch: Batch) -> Map<Seq<char>, Option<Slots>>;

/// How many rows a batch has.
pub uninterp spec fn row_count(batch: Batch) -> nat;

/// What a column holds; nothing if that is not unsigned integers of 32 bits.
pub uninterp spec fn data(column: Column) -> Option<Slots>;

/// What a column of unsigned integers of 32 bits holds.
pub uninterp spec fn slots(cells: Cells) -> Slots;

/// `RecordBatch::column_by_name`: the first column of that name, if there is one.
#[verifier::external_body]
fn column_by_name(batch: &Batch, name: &str) -> (column: Option<Column>)
    ensures
        column is Some <==> columns_of(*batch).contains_key(name@),
        column matches Some(column) ==> data(column) == columns_of(*batch)[name@],
{
    match batch.record_batch.column_by_name(name) {
        Some(array) => Some(Column { array: array.clone() }),
        None => None,
    }
}

/// `RecordBatch::num_rows`: the number of rows, which is the length of every column.
#[verifier::external_body]
fn num_rows(batch: &Batch) -> (n: usize)
    ensures
        n == row_count(*batch),
        forall|name: Seq<char>| #[trigger]
            columns_of(*batch).contains_key(name) ==> (columns_of(*batch)[name] matches Some(cells)
                ==> cells.len() == n),
{
    batch.record_batch.num_rows()
}

/// `Array::as_any`, downcast to `UInt32Array`: the column's cells if they are
/// unsigned integers of 32 bits.
#[verifier::external_body]
fn as_cells(column: &Column) -> (cells: Option<Cells>)
    ensures
        cells is Some <==> data(*column) is Some,
        cells matches Some(cells) ==> data(*column) == Some(slots(cells)),
{
    match column.array.as_any().downcast_ref::<datafusion::arrow::array::UInt32Array>() {
        Some(array) => Some(Cells { array: array.clone() }),
        None => None,
    }
}

/// `Array::is_null`: whether the cell is empty.
#[verifier::external_body]
fn is_null(cells: &Cells, i: usize) -> (null: bool)
    requires
        i < slots(*cells).len(),
    ensures
        null == slots(*cells)[i as int].0,
{
    cells.array.is_null(i)
}

/// `PrimitiveArray::value`: the number that is stored in the cell, which may be
/// any number where the cell is empty.
#[verifier::external_body]
fn value(cells: &Cells, i: usize) -> (value: u32)
    requires
        i < slots(*cells).len(),
    ensures
        value == slots(*cells)[i as int].1,
{
    cells.array.value(i)
}

/// The columns that a table of pixels has.
#[derive(Clone, Copy, Debug, PartialEq, Eq, Structural)]
pub enum ColumnName {
    X,
    Y,
    R,
    G,
    B,
}

impl ColumnName {
    /// The name in the table.
    pub open spec fn spelled(self) -> Seq<char> {
        match self {
            ColumnName::X => "x"@,
            ColumnName::Y => "y"@,
            ColumnName::R => "r"@,
            ColumnName::G => "g"@,
            ColumnName::B => "b"@,
        }
    }

    /// The name in the table.
    pub fn name(self) -> (name: &'static str)
        ensures
            name@ == self.spelled(),
    {
        match self {
            ColumnName::X => "x",
            ColumnName::Y => "y",
            ColumnName::R => "r",
            ColumnName::G => "g",
            ColumnName::B => "b",
        }
    }
}

/// Why a table does not hold pixels.
#[derive(Clone, Copy, Debug, PartialEq, Eq, Structural)]
pub enum ColumnFault {
    /// The column is not there.
    Missing(ColumnName),
    /// The column does not hold unsigned integers of 32 bits.
    NotUInt32(ColumnName),
}

impl ColumnFault {
    /// The fault in words.
    pub open spec fn described(self) -> Seq<char> {
        match self {
            ColumnFault::Missing(name) => "missing '"@ + name.spelled() + "' column"@,
            ColumnFault::NotUInt32(name) => "'"@ + name.spelled() + "' column must be UInt32"@,
        }
    }

    /// The fault in words.
    pub fn message(self) -> (text: String)
        ensures
            text@ == self.described(),
    {
        match self {
            ColumnFault::Missing(name) => {
                let mut text: String = "missing '".to_owned();
                text.append(name.name());
                text.append("' column");
                text
            },
            ColumnFault::NotUInt32(name) => {
                let mut text: String = "'".to_owned();
                text.append(name.name());
                text.append("' column must be UInt32");
                text
            },
        }
    }
}

/// What is wrong with a column of a table, if anything.
pub open spec fn column_fault(
    table: Map<Seq<char>, Option<Slots>>,
    name: ColumnName,
) -> Option<ColumnFault> {
    if !table.contains_key(name.spelled()) {
        Some(ColumnFault::Missing(name))
    } else if table[name.spelled()] is None {
        Some(ColumnFault::NotUInt32(name))
    } else {
        None
    }
}

/// The first fault, in the order `x`, `y`, `r`, `g`, `b`, of a table.
pub open spec fn table_fault(table: Map<Seq<char>, Option<Slots>>) -> Option<ColumnFault> {
    if column_fault(table, ColumnName::X) is Some {
        column_fault(table, ColumnName::X)
    } else if column_fault(table, ColumnName::Y) is Some {
        column_fault(table, ColumnName::Y)
    } else if column_fault(table, ColumnName::R) is Some {
        column_fault(table, ColumnName::R)
    } else if column_fault(table, ColumnName::G) is Some {
        column_fault(table, ColumnName::G)
    } else {
        column_fault(table, ColumnName::B)
    }
}

/// The first fault of some batches.
pub open spec fn first_fault(batches: Seq<Batch>) -> Option<ColumnFault>
    decreases batches.len(),
{
    if batches.len() == 0 {
        None
    } else if first_fault(batches.drop_last()) is Some {
        first_fault(batches.drop_last())
    } else {
        table_fault(columns_of(batches.last()))
    }
}

/// One row of a table of pixels: a place, which may be missing, and a colour.
#[derive(Clone, Copy, Debug, PartialEq, Eq, Structural)]
pub struct Row {
    pub x: Option<u32>,
    pub y: Option<u32>,
    pub r: u32,
    pub g: u32,
    pub b: u32,
}

/// The number in a cell, unless the cell is empty.
pub open spec fn present(cell: (bool, u32)) -> Option<u32> {
    if cell.0 {
        None
    } else {
        Some(cell.1)
    }
}

/// Row `i` of a table of pixels.
pub open spec fn row_of(table: Map<Seq<char>, Option<Slots>>, i: int) -> Row {
    let cells = |name: ColumnName| table[name.spelled()]->Some_0;
    Row {
        x: present(cells(ColumnName::X)[i]),
        y: present(cells(ColumnName::Y)[i]),
        r: cells(ColumnName::R)[i].1,
        g: cells(ColumnName::G)[i].1,
        b: cells(ColumnName::B)[i].1,
    }
}

/// The rows of a batch.
pub open spec fn rows_of(batch: Batch) -> Seq<Row> {
    Seq::new(row_count(batch), |i: int| row_of(columns_of(batch), i))
}

/// The rows of some batches, one after the other.
pub open spec fn all_rows(batches: Seq<Batch>) -> Seq<Row>
    decreases batches.len(),
{
    if batches.len() == 0 {
        Seq::empty()
    } else {
        all_rows(batches.drop_last()) + rows_of(batches.last())
    }
}

/// A column of a batch, or what is wrong with it.
fn pixel_column(batch: &Batch, name: ColumnName) -> (cells: Result<Cells, ColumnFault>)
    ensures
        match cells {
            Ok(cells) => {
                &&& column_fault(columns_of(*batch), name) is None
                &&& columns_of(*batch)[name.spelled()] == Some(slots(cells))
            },
            Err(fault) => column_fault(columns_of(*batch), name) == Some(fault),
        },
{
    match column_by_name(batch, name.name()) {
        None => Err(ColumnFault::Missing(name)),
        Some(column) => match as_cells(&column) {
            None => Err(ColumnFault::NotUInt32(name)),
            Some(cells) => Ok(cells),
        },
    }
}

/// The number in a cell, unless the cell is empty.
fn present_value(cells: &Cells, i: usize) -> (number: Option<u32>)
    requires
        i < slots(*cells).len(),
    ensures
        number == present(slots(*cells)[i as int]),
{
    if is_null(cells, i) {
        None
    } else {
        Some(value(cells, i))
    }
}

/// Appends the rows of a batch.
fn add_rows(rows: &mut Vec<Row>, batch: &Batch) -> (added: Result<(), ColumnFault>)
    ensures
        match added {
            Ok(()) => {
                &&& table_fault(columns_of(*batch)) is None
                &&& final(rows)@ == old(rows)@ + rows_of(*batch)
            },
            Err(fault) => {
                &&& table_fault(columns_of(*batch)) == Some(fault)
                &&& final(rows)@ == old(rows)@
            },
        },
{
    let x: Cells = match pixel_column(batch, ColumnName::X) {
        Ok(cells) => cells,
        Err(fault) => return Err(fault),
    };
    let y: Cells = match pixel_column(batch, ColumnName::Y) {
        Ok(cells) => cells,
        Err(fault) => return Err(fault),
    };
    let r: Cells = match pixel_column(batch, ColumnName::R) {
        Ok(cells) => cells,
        Err(fault) => return Err(fault),
    };
    let g: Cells = match pixel_column(batch, ColumnName::G) {
        Ok(cells) => cells,
        Err(fault) => return Err(fault),
    };
    let b: Cells = match pixel_column(batch, ColumnName::B) {
        Ok(cells) => cells,
        Err(fault) => return Err(fault),
    };
    let n: usize = num_rows(batch);
    let ghost table = columns_of(*batch);
    let ghost before = rows@;
    let mut i: usize = 0;
    proof {
        assert(table.contains_key(ColumnName::X.spelled()));
        assert(table.contains_key(ColumnName::Y.spelled()));
        assert(table.contains_key(ColumnName::R.spelled()));
        assert(table.contains_key(ColumnName::G.spelled()));
        assert(table.contains_key(ColumnName::B.spelled()));
        assert(rows@ =~= before + rows_of(*batch).take(0));
    }
    while i < n
        invariant
            i <= n,
            n == row_count(*batch),
            table == columns_of(*batch),
            table["x"@] == Some(slots(x)),
            table["y"@] == Some(slots(y)),
            table["r"@] == Some(slots(r)),
            table["g"@] == Some(slots(g)),
            table["b"@] == Some(slots(b)),
            slots(x).len() == n,
            slots(y).len() == n,
            slots(r).len() == n,
            slots(g).len() == n,
            slots(b).len() == n,
            rows@ == before + rows_of(*batch).take(i as int),
        decreases n - i,
    {
        let row = Row {
            x: present_value(&x, i),
            y: present_value(&y, i),
            r: value(&r, i),
            g: value(&g, i),
            b: value(&b, i),
        };
        rows.push(row);
        proof {
            assert(row == rows_of(*batch)[i as int]);
            assert(rows@ =~= before + rows_of(*batch).take(i + 1));
        }
        i = i + 1;
    }
    assert(rows_of(*batch).take(i as int) =~= rows_of(*batch));
    Ok(())
}

/// The rows of some batches, one after the other, or the first fault.
pub fn read_rows(batches: &Vec<Batch>) -> (rows: Result<Vec<Row>, ColumnFault>)
    ensures
        match rows {
            Ok(rows) => first_fault(batches@) is None && rows@ == all_rows(batches@),
            Err(fault) => first_fault(batches@) == Some(fault),
        },
{
    let mut rows: Vec<Row> = Vec::new();
    let mut i: usize = 0;
    while i < batches.len()
        invariant
            i <= batches.len(),
            first_fault(batches@.take(i as int)) is None,
            rows@ == all_rows(batches@.take(i as int)),
        decreases batches.len() - i,
    {
        let added = add_rows(&mut rows, &batches[i]);
        assert(batches@.take(i + 1).drop_last() =~= batches@.take(i as int));
        match added {
            Ok(()) => {},
            Err(fault) => {
                proof {
                    lemma_fault_stays(batches@, i + 1);
                }
                return Err(fault);
            },
        }
        i = i + 1;
    }
    assert(batches@.take(i as int) =~= batches@);
    Ok(rows)
}

/// A fault of the first batches is the fault of all.
proof fn lemma_fault_stays(batches: Seq<Batch>, n: int)
    requires
        0 <= n <= batches.len(),
        first_fault(batches.take(n)) is Some,
    ensures
        first_fault(batches) == first_fault(batches.take(n)),
    decreases batches.len(),
{
    if n < batches.len() {
        assert(batches.drop_last().take(n) =~= batches.take(n));
        lemma_fault_stays(batches.drop_last(), n);
    } else {
        assert(batches.take(n) =~= batches);
    }
}

// ---------------------------------------------------------------------------
// Painting
// ---------------------------------------------------------------------------

/// The red, green and blue of a pixel.
pub type Pixel = (u8, u8, u8);

/// A channel: the number, but at most 255.
pub open spec fn channel(value: u32) -> u8 {
    if value < 255 {
        value as u8
    } else {
        255
    }
}

impl Row {
    /// The colour.
    pub open spec fn color(self) -> Pixel {
        (channel(self.r), channel(self.g), channel(self.b))
    }

    /// Which pixel of an image of that size the row is for, counted row by row
    /// from the top left; none if a coordinate is missing or outside of the image.
    pub open spec fn place(self, width: nat, height: nat) -> Option<int> {
        match (self.x, self.y) {
            (Some(x), Some(y)) => if x < width && y < height {
                Some(y * width + x)
            } else {
                None
            },
            _ => None,
        }
    }
}

/// The colour of a pixel: that of the last row which is for it, else black.
pub open spec fn color_at(rows: Seq<Row>, width: nat, height: nat, pixel: int) -> Pixel
    decreases rows.len(),
{
    if rows.len() == 0 {
        (0, 0, 0)
    } else if rows.last().place(width, height) == Some(pixel) {
        rows.last().color()
    } else {
        color_at(rows.drop_last(), width, height, pixel)
    }
}

/// The image that the rows give.
pub open spec fn painted(rows: Seq<Row>, width: nat, height: nat) -> Seq<Pixel> {
    Seq::new(width * height, |pixel: int| color_at(rows, width, height, pixel))
}

/// A channel: the number, but at most 255.
fn to_channel(value: u32) -> (c: u8)
    ensures
        c == channel(value),
{
    if value < 255 {
        value as u8
    } else {
        255
    }
}

/// The pixel in a column and a row lies within the image.
proof fn lemma_within(x: nat, y: nat, width: nat, height: nat)
    requires
        x < width,
        y < height,
    ensures
        y * width + x < width * height,
        y * width <= width * height,
{
    assert(y * width + width <= width * height) by (nonlinear_arith)
        requires
            y + 1 <= height,
    ;
}

/// The image that the rows give.
pub fn paint(rows: &Vec<Row>, width: u32, height: u32) -> (pixels: Vec<Pixel>)
    requires
        width * height <= u32::MAX,
    ensures
        pixels@ == painted(rows@, width as nat, height as nat),
        forall|i: int, x: int, y: int|
            0 <= x < width && 0 <= y < height && #[trigger] is_last_for(rows@, i, x, y)
                ==> pixels@[y * width + x].0 == capped(rows@[i].r) && pixels@[y * width + x].1
                == capped(rows@[i].g) && pixels@[y * width + x].2 == capped(rows@[i].b),
{
    let size: u32 = width * height;
    let mut pixels: Vec<Pixel> = Vec::new();
    let mut k: u32 = 0;
    while k < size
        invariant
            k <= size,
            pixels.len() == k,
            forall|j: int| 0 <= j < k ==> pixels@[j] == (0u8, 0u8, 0u8),
        decreases size - k,
    {
        pixels.push((0, 0, 0));
        k = k + 1;
    }
    let mut i: usize = 0;
    assert(pixels@ =~= painted(rows@.take(0), width as nat, height as nat));
    while i < rows.len()
        invariant
            i <= rows.len(),
            width * height <= u32::MAX,
            pixels@ == painted(rows@.take(i as int), width as nat, height as nat),
        decreases rows.len() - i,
    {
        let row: Row = rows[i];
        assert(rows@.take(i + 1).drop_last() =~= rows@.take(i as int));
        match (row.x, row.y) {
            (Some(x), Some(y)) => {
                if x < width && y < height {
                    proof {
                        lemma_within(x as nat, y as nat, width as nat, height as nat);
                    }
                    let place: u32 = y * width + x;
                    pixels.set(
                        place as usize,
                        (to_channel(row.r), to_channel(row.g), to_channel(row.b)),
                    );
                }
            },
            _ => {},
        }
        i = i + 1;
        assert(pixels@ =~= painted(rows@.take(i as int), width as nat, height as nat));
    }
    assert(rows@.take(i as int) =~= rows@);
    proof {
        assert forall|i: int, x: int, y: int|
            0 <= x < width && 0 <= y < height && #[trigger] is_last_for(
                rows@,
                i,
                x,
                y,
            ) implies pixels@[y * width + x].0 == capped(rows@[i].r) && pixels@[y * width + x].1
            == capped(rows@[i].g) && pixels@[y * width + x].2 == capped(rows@[i].b) by {
            law_row_decides_pixel(rows@, width as nat, height as nat, i, x, y);
        }
    }
    pixels
}

// ---------------------------------------------------------------------------
// Writing
// ---------------------------------------------------------------------------

/// A pixel: three numbers, each with a space behind it.
pub open spec fn pixel_text(pixel: Pixel) -> Seq<char> {
    decimal(pixel.0 as nat) + " "@ + decimal(pixel.1 as nat) + " "@ + decimal(pixel.2 as nat) + " "@
}

/// Pixels one after the other.
pub open spec fn line_text(pixels: Seq<Pixel>) -> Seq<char>
    decreases pixels.len(),
{
    if pixels.len() == 0 {
        Seq::empty()
    } else {
        line_text(pixels.drop_last()) + pixel_text(pixels.last())
    }
}

/// The first `n` lines of pixels, top to bottom.
pub open spec fn lines_text(pixels: Seq<Pixel>, width: nat, n: nat) -> Seq<char>
    decreases n,
{
    if n == 0 {
        Seq::empty()
    } else {
        let line = pixels.subrange((n - 1) * width, (n * width) as int);
        lines_text(pixels, width, (n - 1) as nat) + line_text(line) + "\n"@
    }
}

/// The first three lines: the format, the size, the greatest value of a channel.
pub open spec fn header_text(width: nat, height: nat) -> Seq<char> {
    "P3\n"@ + decimal(width) + " "@ + decimal(height) + "\n"@ + "255\n"@
}

/// The whole file.
pub open spec fn ppm_text(pixels: Seq<Pixel>, width: nat, height: nat) -> Seq<char> {
    header_text(width, height) + lines_text(pixels, width, height)
}

/// Appends a pixel.
fn push_pixel(text: &mut String, pixel: Pixel)
    ensures
        final(text)@ == old(text)@ + pixel_text(pixel),
{
    push_decimal(text, pixel.0 as u32);
    text.append(" ");
    push_decimal(text, pixel.1 as u32);
    text.append(" ");
    push_decimal(text, pixel.2 as u32);
    text.append(" ");
    assert(text@ =~= old(text)@ + pixel_text(pixel));
}

/// The first three lines.
fn header(width: u32, height: u32) -> (text: String)
    ensures
        text@ == header_text(width as nat, height as nat),
{
    let mut text: String = "P3\n".to_owned();
    push_decimal(&mut text, width);
    text.append(" ");
    push_decimal(&mut text, height);
    text.append("\n");
    text.append("255\n");
    text
}

/// The file for an image.
pub fn encode(pixels: &Vec<Pixel>, width: u32, height: u32) -> (text: String)
    requires
        pixels.len() == width * height,
        width * height <= u32::MAX,
    ensures
        text@ == ppm_text(pixels@, width as nat, height as nat),
{
    let mut text: String = header(width, height);
    let ghost head = text@;
    let mut y: u32 = 0;
    assert(text@ =~= head + lines_text(pixels@, width as nat, 0));
    while y < height
        invariant
            y <= height,
            pixels.len() == width * height,
            width * height <= u32::MAX,
            text@ == head + lines_text(pixels@, width as nat, y as nat),
        decreases height - y,
    {
        let ghost before = text@;
        assert(y * width <= width * height && (y + 1) * width == y * width + width && (y + 1)
            * width <= width * height) by (nonlinear_arith)
            requires
                y < height,
        ;
        let start: u32 = y * width;
        let ghost line = pixels@.subrange(start as int, start + width);
        let mut x: u32 = 0;
        assert(text@ =~= before + line_text(line.take(0)));
        while x < width
            invariant
                x <= width,
                start + width <= pixels.len(),
                start + width <= u32::MAX,
                line == pixels@.subrange(start as int, start + width),
                text@ == before + line_text(line.take(x as int)),
            decreases width - x,
        {
            push_pixel(&mut text, pixels[(start + x) as usize]);
            assert(line.take(x + 1).drop_last() =~= line.take(x as int));
            x = x + 1;
            assert(text@ =~= before + line_text(line.take(x as int)));
        }
        assert(line.take(x as int) =~= line);
        text.append("\n");
        y = y + 1;
        assert(text@ =~= head + lines_text(pixels@, width as nat, y as nat));
    }
    text
}

/// The file for the image that a table of pixels gives. The pixels may come in
/// any order, over any number of batches; what no row is for is black.
pub fn write_ppm(batches: &Vec<Batch>, width: u32, height: u32) -> (text: Result<
    String,
    ColumnFault,
>)
    requires
        width * height <= u32::MAX,
    ensures
        match text {
            Ok(text) => {
                &&& first_fault(batches@) is None
                &&& text@ == ppm_text(
                    painted(all_rows(batches@), width as nat, height as nat),
                    width as nat,
                    height as nat,
                )
                &&& forall|i: int, x: int, y: int|
                    0 <= x < width && 0 <= y < height && #[trigger] is_last_for(
                        all_rows(batches@),
                        i,
                        x,
                        y,
                    ) ==> is_in_file(text@, x, y, all_rows(batches@)[i])
            },
            Err(fault) => first_fault(batches@) == Some(fault),
        },
{
    match read_rows(batches) {
        Ok(rows) => {
            let pixels: Vec<Pixel> = paint(&rows, width, height);
            let text: String = encode(&pixels, width, height);
            proof {
                assert forall|i: int, x: int, y: int|
                    0 <= x < width && 0 <= y < height && #[trigger] is_last_for(
                        rows@,
                        i,
                        x,
                        y,
                    ) implies is_in_file(text@, x, y, rows@[i]) by {
                    law_row_in_file(rows@, width as nat, height as nat, i, x, y);
                }
            }
            Ok(text)
        },
        Err(fault) => Err(fault),
    }
}

// ---------------------------------------------------------------------------
// Laws
// ---------------------------------------------------------------------------

/// Whether no two rows are for the same pixel.
pub open spec fn no_pixel_twice(rows: Seq<Row>, width: nat, height: nat) -> bool {
    forall|i: int, j: int|
        0 <= i < j < rows.len() && (#[trigger] rows[i]).place(width, height) is Some
            ==> rows[i].place(width, height) != (#[trigger] rows[j]).place(width, height)
}

/// A pixel that no row is for is black.
pub proof fn law_black_by_default(rows: Seq<Row>, width: nat, height: nat, pixel: int)
    requires
        forall|i: int|
            0 <= i < rows.len() ==> (#[trigger] rows[i]).place(width, height) != Some(pixel),
    ensures
        color_at(rows, width, height, pixel) == (0u8, 0u8, 0u8),
    decreases rows.len(),
{
    if rows.len() > 0 {
        assert(rows.last() == rows[rows.len() - 1]);
        assert forall|i: int| 0 <= i < rows.len() - 1 implies (
        #[trigger] rows.drop_last()[i]).place(width, height) != Some(pixel) by {
            assert(rows.drop_last()[i] == rows[i]);
        }
        law_black_by_default(rows.drop_last(), width, height, pixel);
    }
}

/// A row decides the colour of its pixel, unless a later row is for the same one.
pub proof fn law_last_row_decides(rows: Seq<Row>, width: nat, height: nat, i: int, pixel: int)
    requires
        0 <= i < rows.len(),
        rows[i].place(width, height) == Some(pixel),
        forall|j: int|
            i < j < rows.len() ==> (#[trigger] rows[j]).place(width, height) != Some(pixel),
    ensures
        color_at(rows, width, height, pixel) == rows[i].color(),
    decreases rows.len(),
{
    if i < rows.len() - 1 {
        assert(rows.last() == rows[rows.len() - 1]);
        assert forall|j: int| i < j < rows.len() - 1 implies (#[trigger] rows.drop_last()[j]).place(
            width,
            height,
        ) != Some(pixel) by {
            assert(rows.drop_last()[j] == rows[j]);
        }
        law_last_row_decides(rows.drop_last(), width, height, i, pixel);
    }
}

/// How often a row occurs is how often it occurs before a place, there and after it.
proof fn lemma_count_split(rows: Seq<Row>, i: int, row: Row)
    requires
        0 <= i < rows.len(),
    ensures
        rows.to_multiset().count(row) == rows.take(i).to_multiset().count(row) + (if rows[i]
            == row {
            1nat
        } else {
            0nat
        }) + rows.skip(i + 1).to_multiset().count(row),
{
    broadcast use vstd::seq_lib::group_to_multiset_ensures;

    let (before, after) = (rows.take(i), rows.skip(i + 1));
    assert(rows =~= before.push(rows[i]) + after);
    vstd::seq_lib::lemma_multiset_commutative(before.push(rows[i]), after);
}

/// If the rows of a table are for different pixels, so are the same rows in another
/// order.
proof fn lemma_no_pixel_twice_in_any_order(a: Seq<Row>, b: Seq<Row>, width: nat, height: nat)
    requires
        a.to_multiset() == b.to_multiset(),
        no_pixel_twice(a, width, height),
    ensures
        no_pixel_twice(b, width, height),
{
    broadcast use vstd::seq_lib::group_to_multiset_ensures;

    assert forall|i: int, j: int|
        0 <= i < j < b.len() && (#[trigger] b[i]).place(width, height) is Some implies b[i].place(
        width,
        height,
    ) != (#[trigger] b[j]).place(width, height) by {
        if b[i].place(width, height) == b[j].place(width, height) {
            assert(b.contains(b[i]) && b.contains(b[j]));
            assert(a.to_multiset().count(b[i]) > 0 && a.to_multiset().count(b[j]) > 0);
            assert(a.contains(b[i]) && a.contains(b[j]));
            let p = choose|p: int| 0 <= p < a.len() && a[p] == b[i];
            let q = choose|q: int| 0 <= q < a.len() && a[q] == b[j];
            assert(p == q);
            lemma_count_split(b, i, b[i]);
            assert(b.skip(i + 1)[j - i - 1] == b[j]);
            assert(b.skip(i + 1).contains(b[i]));
            assert(b.to_multiset().count(b[i]) >= 2);
            lemma_count_split(a, p, b[i]);
            if a.take(p).to_multiset().count(b[i]) > 0 {
                assert(a.take(p).contains(b[i]));
                let start = a.take(p);
                let r = choose|r: int| 0 <= r < start.len() && start[r] == b[i];
                assert(a[r] == b[i]);
            } else {
                assert(a.skip(p + 1).contains(b[i]));
                let rest = a.skip(p + 1);
                let r = choose|r: int| 0 <= r < rest.len() && rest[r] == b[i];
                assert(a[p + 1 + r] == b[i]);
            }
            assert(false);
        }
    }
}

/// The order of the rows does not matter where no pixel occurs twice: two tables
/// with the same rows give the same image.
pub proof fn law_order_does_not_matter(a: Seq<Row>, b: Seq<Row>, width: nat, height: nat)
    requires
        a.to_multiset() == b.to_multiset(),
        no_pixel_twice(a, width, height),
    ensures
        painted(a, width, height) == painted(b, width, height),
{
    broadcast use vstd::seq_lib::group_to_multiset_ensures;

    lemma_no_pixel_twice_in_any_order(a, b, width, height);
    assert forall|pixel: int| 0 <= pixel < width * height implies color_at(a, width, height, pixel)
        == color_at(b, width, height, pixel) by {
        if exists|i: int|
            0 <= i < a.len() && (#[trigger] a[i]).place(width, height) == Some(pixel) {
            let i = choose|i: int|
                0 <= i < a.len() && (#[trigger] a[i]).place(width, height) == Some(pixel);
            assert(a.contains(a[i]));
            assert(b.to_multiset().count(a[i]) > 0);
            assert(b.contains(a[i]));
            let j = choose|j: int| 0 <= j < b.len() && b[j] == a[i];
            law_last_row_decides(a, width, height, i, pixel);
            law_last_row_decides(b, width, height, j, pixel);
        } else {
            assert forall|j: int| 0 <= j < b.len() implies (#[trigger] b[j]).place(width, height)
                != Some(pixel) by {
                assert(b.contains(b[j]));
                assert(a.to_multiset().count(b[j]) > 0);
                assert(a.contains(b[j]));
            }
            law_black_by_default(a, width, height, pixel);
            law_black_by_default(b, width, height, pixel);
        }
    }
    assert(painted(a, width, height) =~= painted(b, width, height));
}

/// Rows that are for no pixel of the image do not matter.
pub proof fn law_rows_outside_do_not_matter(rows: Seq<Row>, width: nat, height: nat)
    ensures
        painted(rows, width, height) == painted(
            rows.filter(|row: Row| row.place(width, height) is Some),
            width,
            height,
        ),
    decreases rows.len(),
{
    reveal(Seq::filter);
    let visible = |row: Row| row.place(width, height) is Some;
    if rows.len() > 0 {
        let before = rows.drop_last();
        law_rows_outside_do_not_matter(before, width, height);
        assert forall|pixel: int| 0 <= pixel < width * height implies color_at(
            rows,
            width,
            height,
            pixel,
        ) == color_at(rows.filter(visible), width, height, pixel) by {
            assert(painted(before, width, height)[pixel] == painted(
                before.filter(visible),
                width,
                height,
            )[pixel]);
            if visible(rows.last()) {
                assert(rows.filter(visible).drop_last() =~= before.filter(visible));
            }
        }
    }
    assert(painted(rows, width, height) =~= painted(rows.filter(visible), width, height));
}

/// How a table is cut into batches does not matter, only the rows and their order.
pub proof fn law_batches_do_not_matter(a: Seq<Batch>, b: Seq<Batch>)
    ensures
        all_rows(a + b) == all_rows(a) + all_rows(b),
    decreases b.len(),
{
    if b.len() == 0 {
        assert(a + b =~= a);
        assert(all_rows(a) + all_rows(b) =~= all_rows(a));
    } else {
        assert((a + b).drop_last() =~= a + b.drop_last());
        law_batches_do_not_matter(a, b.drop_last());
        assert(all_rows(a) + all_rows(b.drop_last()) + rows_of(b.last()) =~= all_rows(a) + all_rows(
            b,
        ));
    }
}

/// Whether no number can go on behind the text.
spec fn is_closed(text: Seq<char>) -> bool {
    text.len() == 0 || !is_digit(text.last())
}

/// A space or a line's end is no digit.
proof fn lemma_no_digits()
    ensures
        " "@.len() == 1,
        !is_digit(" "@[0]),
        "\n"@.len() == 1,
        !is_digit("\n"@[0]),
{
    reveal_strlit(" ");
    reveal_strlit("\n");
    reveal_strlit("0123456789");
}

/// A number at the end of a text can be told from what is before it.
proof fn lemma_last_number(s: Seq<char>, a: nat, t: Seq<char>, b: nat)
    requires
        is_closed(s),
        is_closed(t),
        s + decimal(a) == t + decimal(b),
    ensures
        s == t,
        a == b,
{
    law_decimal_is_digits(a);
    law_decimal_is_digits(b);
    let left = s + decimal(a);
    let right = t + decimal(b);
    assert(left.len() == s.len() + decimal(a).len());
    assert(right.len() == t.len() + decimal(b).len());
    if s.len() < t.len() {
        assert(left[t.len() - 1] == decimal(a)[t.len() - 1 - s.len()]);
        assert(right[t.len() - 1] == t.last());
    } else if t.len() < s.len() {
        assert(right[s.len() - 1] == decimal(b)[s.len() - 1 - t.len()]);
        assert(left[s.len() - 1] == s.last());
    }
    assert(s =~= left.take(s.len() as int));
    assert(t =~= right.take(t.len() as int));
    assert(decimal(a) =~= left.skip(s.len() as int));
    assert(decimal(b) =~= right.skip(t.len() as int));
    law_decimal_injective(a, b);
}

/// A number and a space at the end of a text can be told from what is before them.
proof fn lemma_last_number_spaced(s: Seq<char>, a: nat, t: Seq<char>, b: nat)
    requires
        is_closed(s),
        is_closed(t),
        s + decimal(a) + " "@ == t + decimal(b) + " "@,
    ensures
        s == t,
        a == b,
{
    lemma_no_digits();
    assert(s + decimal(a) =~= (s + decimal(a) + " "@).drop_last());
    assert(t + decimal(b) =~= (t + decimal(b) + " "@).drop_last());
    lemma_last_number(s, a, t, b);
}

/// A pixel at the end of a text can be told from what is before it.
proof fn lemma_last_pixel(s: Seq<char>, p: Pixel, t: Seq<char>, q: Pixel)
    requires
        is_closed(s),
        is_closed(t),
        s + pixel_text(p) == t + pixel_text(q),
    ensures
        s == t,
        p == q,
{
    lemma_no_digits();
    let s1 = s + decimal(p.0 as nat) + " "@;
    let t1 = t + decimal(q.0 as nat) + " "@;
    let s2 = s1 + decimal(p.1 as nat) + " "@;
    let t2 = t1 + decimal(q.1 as nat) + " "@;
    assert(s + pixel_text(p) =~= s2 + decimal(p.2 as nat) + " "@);
    assert(t + pixel_text(q) =~= t2 + decimal(q.2 as nat) + " "@);
    lemma_last_number_spaced(s2, p.2 as nat, t2, q.2 as nat);
    lemma_last_number_spaced(s1, p.1 as nat, t1, q.1 as nat);
    lemma_last_number_spaced(s, p.0 as nat, t, q.0 as nat);
}

/// A line of pixels behind a text that is closed leaves it so.
proof fn lemma_line_closed(s: Seq<char>, line: Seq<Pixel>)
    requires
        is_closed(s),
    ensures
        is_closed(s + line_text(line)),
{
    lemma_no_digits();
    if line.len() == 0 {
        assert(s + line_text(line) =~= s);
    } else {
        let text = s + line_text(line);
        assert(text.last() == " "@[0]);
    }
}

/// A line of a known number of pixels at the end of a text can be told from what
/// is before it.
proof fn lemma_last_line(s: Seq<char>, p: Seq<Pixel>, t: Seq<char>, q: Seq<Pixel>)
    requires
        is_closed(s),
        is_closed(t),
        p.len() == q.len(),
        s + line_text(p) == t + line_text(q),
    ensures
        s == t,
        p == q,
    decreases p.len(),
{
    if p.len() == 0 {
        assert(s + line_text(p) =~= s);
        assert(t + line_text(q) =~= t);
        assert(p =~= q);
    } else {
        let s1 = s + line_text(p.drop_last());
        let t1 = t + line_text(q.drop_last());
        lemma_line_closed(s, p.drop_last());
        lemma_line_closed(t, q.drop_last());
        assert(s + line_text(p) =~= s1 + pixel_text(p.last()));
        assert(t + line_text(q) =~= t1 + pixel_text(q.last()));
        lemma_last_pixel(s1, p.last(), t1, q.last());
        lemma_last_line(s, p.drop_last(), t, q.drop_last());
        assert(p =~= p.drop_last().push(p.last()));
        assert(q =~= q.drop_last().push(q.last()));
    }
}

/// Lines are closed.
proof fn lemma_lines_closed(pixels: Seq<Pixel>, width: nat, n: nat)
    ensures
        is_closed(lines_text(pixels, width, n)),
{
    lemma_no_digits();
    if n > 0 {
        assert(lines_text(pixels, width, n).last() == "\n"@[0]);
    }
}

/// The lines determine the pixels.
proof fn lemma_lines(p: Seq<Pixel>, q: Seq<Pixel>, width: nat, n: nat)
    requires
        n * width <= p.len(),
        n * width <= q.len(),
        lines_text(p, width, n) == lines_text(q, width, n),
    ensures
        p.take((n * width) as int) == q.take((n * width) as int),
    decreases n,
{
    if n == 0 {
        assert(0 * width == 0) by (nonlinear_arith);
        assert(p.take((n * width) as int) =~= q.take((n * width) as int));
    } else {
        let m = (n - 1) as nat;
        assert(m * width + width == n * width) by (nonlinear_arith)
            requires
                n == m + 1,
        ;
        let end = (n * width) as int;
        let start = (m * width) as int;
        let one = p.subrange(start, end);
        let two = q.subrange(start, end);
        let s = lines_text(p, width, m);
        let t = lines_text(q, width, m);
        lemma_no_digits();
        assert((n - 1) * width == start) by (nonlinear_arith)
            requires
                start == m * width,
                m == n - 1,
        ;
        assert(s + line_text(one) =~= lines_text(p, width, n).drop_last());
        assert(t + line_text(two) =~= lines_text(q, width, n).drop_last());
        lemma_lines_closed(p, width, m);
        lemma_lines_closed(q, width, m);
        lemma_last_line(s, one, t, two);
        lemma_lines(p, q, width, m);
        assert(p.take(end) =~= p.take(start) + one);
        assert(q.take(end) =~= q.take(start) + two);
    }
}

/// A number at the start of a text, with no digit behind it, can be told from
/// what follows.
proof fn lemma_first_number(a: nat, s: Seq<char>, b: nat, t: Seq<char>)
    requires
        s.len() > 0 && !is_digit(s[0]),
        t.len() > 0 && !is_digit(t[0]),
        decimal(a) + s == decimal(b) + t,
    ensures
        a == b,
        s == t,
{
    law_decimal_is_digits(a);
    law_decimal_is_digits(b);
    let left = decimal(a) + s;
    let right = decimal(b) + t;
    let (m, n) = (decimal(a).len() as int, decimal(b).len() as int);
    if m < n {
        assert(left[m] == s[0]);
        assert(right[m] == decimal(b)[m]);
    } else if n < m {
        assert(right[n] == t[0]);
        assert(left[n] == decimal(a)[n]);
    }
    assert(decimal(a) =~= left.take(m));
    assert(decimal(b) =~= right.take(n));
    assert(s =~= left.skip(m));
    assert(t =~= right.skip(n));
    law_decimal_injective(a, b);
}

/// What follows the same start is the same.
proof fn lemma_same_start(start: Seq<char>, s: Seq<char>, t: Seq<char>)
    requires
        start + s == start + t,
    ensures
        s == t,
{
    assert(s =~= (start + s).skip(start.len() as int));
    assert(t =~= (start + t).skip(start.len() as int));
}

/// The parts of the file, grouped from the end.
proof fn lemma_parts(
    a: Seq<char>,
    b: Seq<char>,
    c: Seq<char>,
    d: Seq<char>,
    e: Seq<char>,
    f: Seq<char>,
    g: Seq<char>,
)
    ensures
        a + b + c + d + e + f + g == a + (b + (c + (d + (e + (f + g))))),
{
    assert(a + b + c + d + e + f + g =~= a + (b + (c + (d + (e + (f + g))))));
}

/// The file determines the image: its size and every pixel.
pub proof fn law_text_determines_image(
    p: Seq<Pixel>,
    width_p: nat,
    height_p: nat,
    q: Seq<Pixel>,
    width_q: nat,
    height_q: nat,
)
    requires
        p.len() == width_p * height_p,
        q.len() == width_q * height_q,
        ppm_text(p, width_p, height_p) == ppm_text(q, width_q, height_q),
    ensures
        width_p == width_q,
        height_p == height_q,
        p == q,
{
    lemma_no_digits();
    let (space, end, max) = (" "@, "\n"@, "255\n"@);
    let lines_p = lines_text(p, width_p, height_p);
    let lines_q = lines_text(q, width_q, height_q);
    lemma_parts("P3\n"@, decimal(width_p), space, decimal(height_p), end, max, lines_p);
    lemma_parts("P3\n"@, decimal(width_q), space, decimal(height_q), end, max, lines_q);
    let rest_p = decimal(height_p) + (end + (max + lines_p));
    let rest_q = decimal(height_q) + (end + (max + lines_q));
    lemma_same_start(
        "P3\n"@,
        decimal(width_p) + (space + rest_p),
        decimal(width_q) + (space + rest_q),
    );
    lemma_first_number(width_p, space + rest_p, width_q, space + rest_q);
    lemma_same_start(space, rest_p, rest_q);
    lemma_first_number(height_p, end + (max + lines_p), height_q, end + (max + lines_q));
    lemma_same_start(end, max + lines_p, max + lines_q);
    lemma_same_start(max, lines_p, lines_q);
    assert(height_p * width_p == width_p * height_p) by (nonlinear_arith);
    lemma_lines(p, q, width_p, height_p);
    assert(p.take(p.len() as int) =~= p);
    assert(q.take(q.len() as int) =~= q);
}

} // verus!
