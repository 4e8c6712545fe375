//! What stands where in the file of an image: its lines, their words, and the numbers
//! that these are.
use crate::ppm::{
    Batch, ColumnFault, ColumnName, Pixel, Row, all_rows, columns_of, first_fault,
    law_black_by_default, law_last_row_decides, line_text, lines_text, painted, pixel_text,
    ppm_text, row_count, rows_of,
};
use crate::text::{decimal, digit, is_digit, law_decimal_is_digits};
use vstd::prelude::*;

verus! {

// ---------------------------------------------------------------------------
// Numbers
// ---------------------------------------------------------------------------

/// The number that digits stand for, the highest first.
pub open spec fn number_read(text: Seq<char>) -> int
    decreases text.len(),
{
    if text.len() == 0 {
        0
    } else {
        10 * number_read(text.drop_last()) + (text.last() as int - '0' as int)
    }
}

/// What is written in decimal notation reads as the number, without needless zeros.
pub proof fn law_decimal_reads_back(n: nat)
    ensures
        number_read(decimal(n)) == n,
        decimal(n).len() > 0,
        n > 0 ==> decimal(n)[0] != '0',
        n == 0 ==> decimal(n) == seq!['0'],
    decreases n,
{
    reveal_strlit("0123456789");
    if n < 10 {
        assert(decimal(n).drop_last() =~= Seq::empty());
        assert(number_read(decimal(n).drop_last()) == 0);
        lemma_digit(n);
    } else {
        law_decimal_reads_back(n / 10);
        assert(decimal(n).drop_last() =~= decimal(n / 10));
        lemma_digit(n % 10);
        assert(decimal(n)[0] == decimal(n / 10)[0]);
    }
}

proof fn lemma_digit(d: nat)
    requires
        d < 10,
    ensures
        digit(d) as int - '0' as int == d,
        d > 0 ==> digit(d) != '0',
        d == 0 ==> digit(d) == '0',
{
    reveal_strlit("0123456789");
    assert(d == 0 || d == 1 || d == 2 || d == 3 || d == 4 || d == 5 || d == 6 || d == 7 || d == 8
        || d == 9);
}

// ---------------------------------------------------------------------------
// Pieces
// ---------------------------------------------------------------------------

/// Where a character first occurs; the length if it does not.
pub open spec fn until(text: Seq<char>, mark: char) -> int
    decreases text.len(),
{
    if text.len() == 0 || text[0] == mark {
        0
    } else {
        1 + until(text.drop_first(), mark)
    }
}

/// The piece with that number, from 0, of a text that is cut at each mark.
pub open spec fn piece(text: Seq<char>, mark: char, n: nat) -> Seq<char>
    decreases n,
{
    let end = until(text, mark);
    if n == 0 {
        text.take(end)
    } else if end < text.len() {
        piece(text.skip(end + 1), mark, (n - 1) as nat)
    } else {
        Seq::empty()
    }
}

proof fn lemma_until(piece: Seq<char>, mark: char, rest: Seq<char>)
    requires
        !piece.contains(mark),
    ensures
        until(piece + seq![mark] + rest, mark) == piece.len(),
    decreases piece.len(),
{
    let text = piece + seq![mark] + rest;
    if piece.len() > 0 {
        let later = piece.drop_first();
        assert(text[0] == piece[0]);
        assert(piece.contains(piece[0]));
        assert(!later.contains(mark)) by {
            if later.contains(mark) {
                let i = choose|i: int| 0 <= i < later.len() && later[i] == mark;
                assert(piece[i + 1] == mark);
            }
        }
        lemma_until(later, mark, rest);
        assert(text.drop_first() =~= later + seq![mark] + rest);
    } else {
        assert(text[0] == mark);
    }
}

/// The first piece, and the others.
proof fn lemma_first_piece(first: Seq<char>, mark: char, rest: Seq<char>, n: nat)
    requires
        !first.contains(mark),
    ensures
        piece(first + seq![mark] + rest, mark, 0) == first,
        piece(first + seq![mark] + rest, mark, n + 1) == piece(rest, mark, n),
{
    let text = first + seq![mark] + rest;
    lemma_until(first, mark, rest);
    assert(text.take(first.len() as int) =~= first);
    assert(text.skip((first.len() + 1) as int) =~= rest);
}

// ---------------------------------------------------------------------------
// Words of a line
// ---------------------------------------------------------------------------

proof fn lemma_decimal_has_no(n: nat, mark: char)
    requires
        mark == ' ' || mark == '\n',
    ensures
        !decimal(n).contains(mark),
{
    law_decimal_is_digits(n);
    reveal_strlit("0123456789");
    if decimal(n).contains(mark) {
        let i = choose|i: int| 0 <= i < decimal(n).len() && decimal(n)[i] == mark;
        assert(is_digit(decimal(n)[i]));
        let k = choose|k: int| 0 <= k < "0123456789"@.len() && "0123456789"@[k] == mark;
        assert(k == 0 || k == 1 || k == 2 || k == 3 || k == 4 || k == 5 || k == 6 || k == 7 || k
            == 8 || k == 9);
    }
}

/// The words of a pixel, and those behind it.
proof fn lemma_pixel_words(p: Pixel, rest: Seq<char>, n: nat)
    ensures
        piece(pixel_text(p) + rest, ' ', 0) == decimal(p.0 as nat),
        piece(pixel_text(p) + rest, ' ', 1) == decimal(p.1 as nat),
        piece(pixel_text(p) + rest, ' ', 2) == decimal(p.2 as nat),
        piece(pixel_text(p) + rest, ' ', n + 3) == piece(rest, ' ', n),
{
    reveal_strlit(" ");
    let (a, b, c) = (decimal(p.0 as nat), decimal(p.1 as nat), decimal(p.2 as nat));
    lemma_decimal_has_no(p.0 as nat, ' ');
    lemma_decimal_has_no(p.1 as nat, ' ');
    lemma_decimal_has_no(p.2 as nat, ' ');
    let space = seq![' '];
    assert(" "@ =~= space);
    let third = c + space + rest;
    let second = b + space + third;
    assert(pixel_text(p) + rest =~= a + space + second);
    lemma_first_piece(a, ' ', second, 0);
    lemma_first_piece(a, ' ', second, 1);
    lemma_first_piece(a, ' ', second, n + 2);
    lemma_first_piece(b, ' ', third, 0);
    lemma_first_piece(b, ' ', third, n + 1);
    lemma_first_piece(c, ' ', rest, n);
}

/// The words of a line are the channels of its pixels, one after the other.
proof fn lemma_line_words(line: Seq<Pixel>, rest: Seq<char>, n: nat)
    ensures
        forall|x: int|
            0 <= x < line.len() ==> {
                let text = line_text(line) + rest;
                &&& piece(text, ' ', (3 * x) as nat) == decimal((#[trigger] line[x]).0 as nat)
                &&& piece(text, ' ', (3 * x + 1) as nat) == decimal(line[x].1 as nat)
                &&& piece(text, ' ', (3 * x + 2) as nat) == decimal(line[x].2 as nat)
            },
        piece(line_text(line) + rest, ' ', 3 * line.len() + n) == piece(rest, ' ', n),
    decreases line.len(),
{
    if line.len() == 0 {
        assert(line_text(line) + rest =~= rest);
    } else {
        let start = line.drop_last();
        let last = line.last();
        let k = line.len() - 1;
        let tail = pixel_text(last) + rest;
        assert(line_text(line) + rest =~= line_text(start) + tail);
        lemma_line_words(start, tail, 0);
        lemma_line_words(start, tail, 1);
        lemma_line_words(start, tail, 2);
        lemma_line_words(start, tail, n + 3);
        lemma_pixel_words(last, rest, n);
        assert forall|x: int| 0 <= x < line.len() implies {
            let text = line_text(line) + rest;
            &&& piece(text, ' ', (3 * x) as nat) == decimal((#[trigger] line[x]).0 as nat)
            &&& piece(text, ' ', (3 * x + 1) as nat) == decimal(line[x].1 as nat)
            &&& piece(text, ' ', (3 * x + 2) as nat) == decimal(line[x].2 as nat)
        } by {
            if x < k {
                assert(start[x] == line[x]);
            } else {
                assert(line[x] == last);
            }
        }
    }
}

proof fn lemma_line_is_one(line: Seq<Pixel>)
    ensures
        !line_text(line).contains('\n'),
    decreases line.len(),
{
    if line.len() > 0 {
        let p = line.last();
        let before = line_text(line.drop_last());
        lemma_line_is_one(line.drop_last());
        lemma_decimal_has_no(p.0 as nat, '\n');
        lemma_decimal_has_no(p.1 as nat, '\n');
        lemma_decimal_has_no(p.2 as nat, '\n');
        reveal_strlit(" ");
        let (a, b, c) = (decimal(p.0 as nat), decimal(p.1 as nat), decimal(p.2 as nat));
        lemma_joined(a, " "@, '\n');
        lemma_joined(a + " "@, b, '\n');
        lemma_joined(a + " "@ + b, " "@, '\n');
        lemma_joined(a + " "@ + b + " "@, c, '\n');
        lemma_joined(a + " "@ + b + " "@ + c, " "@, '\n');
        lemma_joined(before, pixel_text(p), '\n');
    }
}

proof fn lemma_joined(a: Seq<char>, b: Seq<char>, mark: char)
    requires
        !a.contains(mark),
        !b.contains(mark),
    ensures
        !(a + b).contains(mark),
{
    if (a + b).contains(mark) {
        let i = choose|i: int| 0 <= i < (a + b).len() && (a + b)[i] == mark;
        if i < a.len() {
            assert(a[i] == mark);
        } else {
            assert(b[i - a.len()] == mark);
        }
    }
}

// ---------------------------------------------------------------------------
// Lines of the file
// ---------------------------------------------------------------------------

proof fn lemma_lines(pixels: Seq<Pixel>, width: nat, n: nat, rest: Seq<char>, k: nat)
    ensures
        forall|y: int|
            0 <= y < n ==> #[trigger] piece(lines_text(pixels, width, n) + rest, '\n', y as nat)
                == line_text(pixels.subrange(y * width, (y + 1) * width)),
        piece(lines_text(pixels, width, n) + rest, '\n', n + k) == piece(rest, '\n', k),
    decreases n,
{
    reveal_strlit("\n");
    assert("\n"@ =~= seq!['\n']);
    let text = lines_text(pixels, width, n) + rest;
    if n == 0 {
        assert(text =~= rest);
    } else {
        let m = (n - 1) as nat;
        let line = line_text(pixels.subrange((n - 1) * width, (n * width) as int));
        let tail = line + seq!['\n'] + rest;
        assert(text =~= lines_text(pixels, width, m) + tail);
        lemma_lines(pixels, width, m, tail, 0);
        lemma_lines(pixels, width, m, tail, k + 1);
        lemma_line_is_one(pixels.subrange((n - 1) * width, (n * width) as int));
        lemma_first_piece(line, '\n', rest, k);
        assert forall|y: int| 0 <= y < n implies #[trigger] piece(text, '\n', y as nat)
            == line_text(pixels.subrange(y * width, (y + 1) * width)) by {
            if y == m {
                assert(y as nat == m + 0);
            }
        }
    }
}

/// The file: `P3`, the width and the height, 255, and then a line for each row of the
/// image from the top. In the line of a row stand the channels of its pixels from the
/// left, three for each.
pub proof fn law_file(pixels: Seq<Pixel>, width: nat, height: nat, x: int, y: int)
    requires
        pixels.len() == width * height,
        0 <= x < width,
        0 <= y < height,
    ensures
        ({
            let text = ppm_text(pixels, width, height);
            let line = piece(text, '\n', (3 + y) as nat);
            let pixel = pixels[y * width + x];
            &&& piece(text, '\n', 0) == "P3"@
            &&& piece(text, '\n', 1) == decimal(width) + " "@ + decimal(height)
            &&& piece(text, '\n', 2) == "255"@
            &&& number_read(piece(line, ' ', (3 * x) as nat)) == pixel.0
            &&& number_read(piece(line, ' ', (3 * x + 1) as nat)) == pixel.1
            &&& number_read(piece(line, ' ', (3 * x + 2) as nat)) == pixel.2
            &&& piece(line, ' ', 3 * width) == Seq::<char>::empty()
            &&& piece(text, '\n', 3 + height) == Seq::<char>::empty()
        }),
{
    let text = ppm_text(pixels, width, height);
    let body = lines_text(pixels, width, height);
    reveal_strlit("P3");
    reveal_strlit("P3\n");
    reveal_strlit("255");
    reveal_strlit("255\n");
    reveal_strlit("\n");
    reveal_strlit(" ");
    let size = decimal(width) + " "@ + decimal(height);
    let third = "255"@ + seq!['\n'] + body;
    let second = size + seq!['\n'] + third;
    assert(text =~= "P3"@ + seq!['\n'] + second);
    assert(!"P3"@.contains('\n'));
    assert(!"255"@.contains('\n'));
    lemma_decimal_has_no(width, '\n');
    lemma_decimal_has_no(height, '\n');
    lemma_joined(decimal(width), " "@, '\n');
    lemma_joined(decimal(width) + " "@, decimal(height), '\n');
    lemma_first_piece("P3"@, '\n', second, 0);
    lemma_first_piece("P3"@, '\n', second, 1);
    lemma_first_piece("P3"@, '\n', second, (2 + y) as nat);
    lemma_first_piece("P3"@, '\n', second, 2 + height);
    lemma_first_piece(size, '\n', third, 0);
    lemma_first_piece(size, '\n', third, (1 + y) as nat);
    lemma_first_piece(size, '\n', third, 1 + height);
    lemma_first_piece("255"@, '\n', body, y as nat);
    lemma_first_piece("255"@, '\n', body, height);
    lemma_lines(pixels, width, height, Seq::empty(), 0);
    assert(body + Seq::<char>::empty() =~= body);
    assert(piece(body, '\n', y as nat) == line_text(
        pixels.subrange(y * width, (y + 1) * width),
    ));
    assert(piece(Seq::<char>::empty(), '\n', 0) =~= Seq::<char>::empty());
    assert(piece(body, '\n', (height + 0) as nat) == Seq::<char>::empty());
    assert(piece(text, '\n', (3 + y) as nat) == piece(body, '\n', y as nat));
    let line = pixels.subrange(y * width, (y + 1) * width);
    assert(0 <= y * width && (y + 1) * width == y * width + width && (y + 1) * width <= height
        * width) by (nonlinear_arith)
        requires
            0 <= y < height,
            0 <= width,
    ;
    assert(height * width == width * height) by (nonlinear_arith);
    assert(line.len() == width);
    assert(line[x] == pixels[y * width + x]);
    lemma_line_words(line, Seq::empty(), 0);
    assert(line_text(line) + Seq::<char>::empty() =~= line_text(line));
    assert(piece(Seq::<char>::empty(), ' ', 0) =~= Seq::<char>::empty());
    assert(piece(line_text(line), ' ', (3 * line.len() + 0) as nat) == Seq::<char>::empty());
    let pixel = pixels[y * width + x];
    law_decimal_reads_back(pixel.0 as nat);
    law_decimal_reads_back(pixel.1 as nat);
    law_decimal_reads_back(pixel.2 as nat);
}

// ---------------------------------------------------------------------------
// Which row decides a pixel
// ---------------------------------------------------------------------------

/// Whether a row is for the pixel at a place.
pub open spec fn is_for(row: Row, x: int, y: int) -> bool {
    row.x matches Some(a) && a == x && (row.y matches Some(b) && b == y)
}

/// Whether a row is the last that is for the pixel at a place.
pub open spec fn is_last_for(rows: Seq<Row>, i: int, x: int, y: int) -> bool {
    &&& 0 <= i < rows.len()
    &&& is_for(rows[i], x, y)
    &&& forall|j: int| i < j < rows.len() ==> !is_for(#[trigger] rows[j], x, y)
}

/// Whether the words for pixel `x` in the line of row `y` of a file are the channels
/// of a row.
pub open spec fn is_in_file(text: Seq<char>, x: int, y: int, row: Row) -> bool {
    let line = piece(text, '\n', (3 + y) as nat);
    &&& number_read(piece(line, ' ', (3 * x) as nat)) == capped(row.r)
    &&& number_read(piece(line, ' ', (3 * x + 1) as nat)) == capped(row.g)
    &&& number_read(piece(line, ' ', (3 * x + 2) as nat)) == capped(row.b)
}

/// The number as a channel: at most 255.
pub open spec fn capped(value: u32) -> int {
    if value > 255 {
        255
    } else {
        value as int
    }
}

/// Pixels at different places have different numbers.
proof fn lemma_numbers(x: int, y: int, a: int, b: int, width: int)
    requires
        0 <= x < width,
        0 <= a < width,
        y * width + x == b * width + a,
    ensures
        x == a,
        y == b,
{
    assert(y == b) by (nonlinear_arith)
        requires
            0 <= x < width,
            0 <= a < width,
            y * width + x == b * width + a,
    ;
}

proof fn lemma_number_within(x: int, y: int, width: int, height: int)
    requires
        0 <= x < width,
        0 <= y < height,
    ensures
        0 <= y * width + x < width * height,
{
    assert(0 <= y * width + x < width * height) by (nonlinear_arith)
        requires
            0 <= x < width,
            0 <= y < height,
    ;
}

/// A row for the place `(x, y)` that no later row is for decides the pixel with the
/// number `y * width + x` of the image.
pub proof fn law_row_decides_pixel(
    rows: Seq<Row>,
    width: nat,
    height: nat,
    i: int,
    x: int,
    y: int,
)
    requires
        0 <= x < width,
        0 <= y < height,
        is_last_for(rows, i, x, y),
    ensures
        painted(rows, width, height).len() == width * height,
        ({
            let pixel = painted(rows, width, height)[y * width + x];
            &&& pixel.0 == capped(rows[i].r)
            &&& pixel.1 == capped(rows[i].g)
            &&& pixel.2 == capped(rows[i].b)
        }),
{
    let n = y * width + x;
    lemma_number_within(x, y, width as int, height as int);
    assert forall|j: int| i < j < rows.len() implies (#[trigger] rows[j]).place(width, height)
        != Some(n) by {
        assert(!is_for(rows[j], x, y));
        if rows[j].place(width, height) == Some(n) {
            let (a, b) = (rows[j].x->Some_0 as int, rows[j].y->Some_0 as int);
            lemma_numbers(x, y, a, b, width as int);
        }
    }
    law_last_row_decides(rows, width, height, i, n);
}

/// A pixel that no row is for is black.
pub proof fn law_no_row_is_black(rows: Seq<Row>, width: nat, height: nat, x: int, y: int)
    requires
        0 <= x < width,
        0 <= y < height,
        forall|j: int| 0 <= j < rows.len() ==> !is_for(#[trigger] rows[j], x, y),
    ensures
        painted(rows, width, height).len() == width * height,
        painted(rows, width, height)[y * width + x] == (0u8, 0u8, 0u8),
{
    let n = y * width + x;
    lemma_number_within(x, y, width as int, height as int);
    assert forall|j: int| 0 <= j < rows.len() implies (#[trigger] rows[j]).place(width, height)
        != Some(n) by {
        assert(!is_for(rows[j], x, y));
        if rows[j].place(width, height) == Some(n) {
            let (a, b) = (rows[j].x->Some_0 as int, rows[j].y->Some_0 as int);
            lemma_numbers(x, y, a, b, width as int);
        }
    }
    law_black_by_default(rows, width, height, n);
}

/// What a row at `(x, y)` that no later row repeats is in the file: the three words for
/// pixel `x` in the line of row `y`.
pub proof fn law_row_in_file(
    rows: Seq<Row>,
    width: nat,
    height: nat,
    i: int,
    x: int,
    y: int,
)
    requires
        0 <= x < width,
        0 <= y < height,
        is_last_for(rows, i, x, y),
    ensures
        is_in_file(ppm_text(painted(rows, width, height), width, height), x, y, rows[i]),
{
    law_row_decides_pixel(rows, width, height, i, x, y);
    law_file(painted(rows, width, height), width, height, x, y);
}

// ---------------------------------------------------------------------------
// Rows of a table
// ---------------------------------------------------------------------------

/// A row of a batch: its place from the columns `x` and `y`, where they are not empty,
/// and its colour from `r`, `g` and `b`.
pub proof fn law_row_of_batch(batch: Batch, i: int)
    requires
        0 <= i < row_count(batch),
    ensures
        ({
            let table = columns_of(batch);
            let row = rows_of(batch)[i];
            let (x, y) = (table["x"@]->Some_0[i], table["y"@]->Some_0[i]);
            &&& rows_of(batch).len() == row_count(batch)
            &&& row.x == (if x.0 {
                None
            } else {
                Some(x.1)
            })
            &&& row.y == (if y.0 {
                None
            } else {
                Some(y.1)
            })
            &&& row.r == table["r"@]->Some_0[i].1
            &&& row.g == table["g"@]->Some_0[i].1
            &&& row.b == table["b"@]->Some_0[i].1
        }),
{
}

/// The rows of several batches are those of each, in order.
pub proof fn law_rows_in_order(a: Seq<Batch>, batch: Batch)
    ensures
        all_rows(Seq::<Batch>::empty()) == Seq::<Row>::empty(),
        all_rows(a.push(batch)) == all_rows(a) + rows_of(batch),
{
    assert(a.push(batch).drop_last() =~= a);
}

/// Whether a batch has a column of unsigned integers under a name.
pub open spec fn has_integers(batch: Batch, name: Seq<char>) -> bool {
    columns_of(batch).contains_key(name) && columns_of(batch)[name] is Some
}

/// Whether a batch has the five columns of a table of pixels.
pub open spec fn has_pixels(batch: Batch) -> bool {
    &&& has_integers(batch, "x"@)
    &&& has_integers(batch, "y"@)
    &&& has_integers(batch, "r"@)
    &&& has_integers(batch, "g"@)
    &&& has_integers(batch, "b"@)
}

/// Nothing is wrong exactly if every batch has the five columns.
pub proof fn law_no_fault(batches: Seq<Batch>)
    ensures
        first_fault(batches) is None <==> forall|i: int|
            0 <= i < batches.len() ==> has_pixels(#[trigger] batches[i]),
    decreases batches.len(),
{
    if batches.len() > 0 {
        let start = batches.drop_last();
        law_no_fault(start);
        assert(batches.last() == batches[batches.len() - 1]);
        assert forall|i: int| 0 <= i < start.len() implies (#[trigger] start[i])
            == batches[i] by {}
        if first_fault(batches) is None {
            assert forall|i: int| 0 <= i < batches.len() implies has_pixels(
                #[trigger] batches[i],
            ) by {
                if i < start.len() {
                    assert(has_pixels(start[i]));
                }
            }
        }
    }
}

/// The column that a name stands for.
pub open spec fn text_of(name: ColumnName) -> Seq<char> {
    match name {
        ColumnName::X => "x"@,
        ColumnName::Y => "y"@,
        ColumnName::R => "r"@,
        ColumnName::G => "g"@,
        ColumnName::B => "b"@,
    }
}

/// The columns before one, in the order `x`, `y`, `r`, `g`, `b`.
pub open spec fn before(name: ColumnName) -> Seq<Seq<char>> {
    match name {
        ColumnName::X => seq![],
        ColumnName::Y => seq!["x"@],
        ColumnName::R => seq!["x"@, "y"@],
        ColumnName::G => seq!["x"@, "y"@, "r"@],
        ColumnName::B => seq!["x"@, "y"@, "r"@, "g"@],
    }
}

/// A fault is that of the first batch with one: its first column, in the order `x`,
/// `y`, `r`, `g`, `b`, that is not there or does not hold unsigned integers.
pub proof fn law_first_fault(batches: Seq<Batch>)
    ensures
        first_fault(batches) matches Some(fault) ==> exists|i: int|
            0 <= i < batches.len() && #[trigger] is_fault_of(batches[i], fault) && forall|j: int|
                0 <= j < i ==> has_pixels(#[trigger] batches[j]),
    decreases batches.len(),
{
    if batches.len() > 0 {
        let start = batches.drop_last();
        let k = batches.len() - 1;
        law_first_fault(start);
        law_no_fault(start);
        assert(batches.last() == batches[k]);
        assert forall|i: int| 0 <= i < start.len() implies (#[trigger] start[i])
            == batches[i] by {}
        match first_fault(start) {
            Some(fault) => {
                let i = choose|i: int|
                    0 <= i < start.len() && #[trigger] is_fault_of(start[i], fault) && forall|
                        j: int,
                    |
                        0 <= j < i ==> has_pixels(#[trigger] start[j]);
                assert(is_fault_of(batches[i], fault));
                assert forall|j: int| 0 <= j < i implies has_pixels(#[trigger] batches[j]) by {
                    assert(has_pixels(start[j]));
                }
            },
            None => {
                if first_fault(batches) is Some {
                    assert(is_fault_of(batches[k], first_fault(batches)->Some_0));
                    assert forall|j: int| 0 <= j < k implies has_pixels(
                        #[trigger] batches[j],
                    ) by {
                        assert(has_pixels(start[j]));
                    }
                }
            },
        }
    }
}

/// Whether that is the first fault of a batch.
pub open spec fn is_fault_of(batch: Batch, fault: ColumnFault) -> bool {
    let name = match fault {
        ColumnFault::Missing(name) => name,
        ColumnFault::NotUInt32(name) => name,
    };
    &&& forall|k: int|
        0 <= k < before(name).len() ==> has_integers(batch, #[trigger] before(name)[k])
    &&& match fault {
        ColumnFault::Missing(name) => !columns_of(batch).contains_key(text_of(name)),
        ColumnFault::NotUInt32(name) => columns_of(batch).contains_key(text_of(name))
            && columns_of(batch)[text_of(name)] is None,
    }
}

} // verus!
