//! The table as a value: what each of its lines holds, character by
//! character, and what holds of every table.

use crate::constant::{
    ADDRESS_LABEL, ASCII_LABEL, BOTTOM_JUNCTION, BOTTOM_LEFT_CORNER, BOTTOM_RIGHT_CORNER,
    HORIZONTAL_DIVIDER, TOP_JUNCTION, TOP_LEFT_CORNER, TOP_RIGHT_CORNER, VERTICAL_DIVIDER,
};
use crate::numeral::{
    ceil_log, digits, lemma_ceil_log_at_most, lemma_ceil_log_exists, lemma_digits_fit,
    lemma_digits_grow, lemma_pow_increases_in_base, zero_padded,
};
use crate::options::Base;
use crate::text::{centered, left_aligned, repeated};
use crate::utils::glyph;
use vstd::arithmetic::power::pow;
use vstd::prelude::*;

verus! {

/// One column of the table: the label in its head and the number of characters
/// it is wide.
pub struct Column {
    pub label: Seq<char>,
    pub width: nat,
}

/// The three columns of the table.
pub struct Layout {
    pub address: Column,
    pub data: Column,
    pub ascii: Column,
}

/// The width of the address column of a file of `file_size` bytes: that of its
/// label, or the logarithm of the file size to the radix, rounded up, where
/// that is more.
pub open spec fn address_width(file_size: nat, base: Base) -> nat {
    let needed = ceil_log(base.spec_radix() as nat, file_size);
    if needed > ADDRESS_LABEL@.len() {
        needed
    } else {
        ADDRESS_LABEL@.len()
    }
}

/// The width of the data column: a field and a space for each byte of a row,
/// less the space after the last.
pub open spec fn data_width(base: Base, row_width: nat) -> nat {
    (row_width * (base.spec_len() + 1) - 1) as nat
}

/// The label of the data column: the name of the base and the word `data`.
pub open spec fn data_label(base: Base) -> Seq<char> {
    base.name() + " data"@
}

/// The columns of the table of a file of `file_size` bytes, shown in `base`
/// with `row_width` bytes in a row.
pub open spec fn layout_of(file_size: nat, base: Base, row_width: nat) -> Layout {
    Layout {
        address: Column { label: ADDRESS_LABEL@, width: address_width(file_size, base) },
        data: Column { label: data_label(base), width: data_width(base, row_width) },
        ascii: Column { label: ASCII_LABEL@, width: row_width },
    }
}

/// A horizontal edge of the frame: a rule over each column, the rules joined
/// by `joint`, between the corners `left` and `right`.
pub open spec fn border(left: char, joint: char, right: char, layout: Layout) -> Seq<char> {
    seq![left] + repeated(HORIZONTAL_DIVIDER, layout.address.width) + seq![joint] + repeated(
        HORIZONTAL_DIVIDER,
        layout.data.width,
    ) + seq![joint] + repeated(HORIZONTAL_DIVIDER, layout.ascii.width) + seq![right]
}

/// The upper edge of the frame.
pub open spec fn top_border(layout: Layout) -> Seq<char> {
    border(TOP_LEFT_CORNER, TOP_JUNCTION, TOP_RIGHT_CORNER, layout)
}

/// The lower edge of the frame.
pub open spec fn bottom_border(layout: Layout) -> Seq<char> {
    border(BOTTOM_LEFT_CORNER, BOTTOM_JUNCTION, BOTTOM_RIGHT_CORNER, layout)
}

/// The line of labels: that of the address column at the left of its cell,
/// the other two in the middle of theirs.
pub open spec fn header(layout: Layout) -> Seq<char> {
    seq![VERTICAL_DIVIDER] + left_aligned(layout.address.label, layout.address.width)
        + seq![VERTICAL_DIVIDER] + centered(layout.data.label, layout.data.width)
        + seq![VERTICAL_DIVIDER] + centered(layout.ascii.label, layout.ascii.width)
        + seq![VERTICAL_DIVIDER]
}

/// The number of rows that `len` bytes take with `row_width` bytes in a row:
/// the quotient of the two, rounded up.
pub open spec fn row_count(len: nat, row_width: nat) -> nat {
    if row_width == 0 {
        0
    } else {
        ((len + row_width - 1) / row_width as int) as nat
    }
}

/// The bytes of row `i`: the next `row_width` bytes from `i * row_width` on,
/// or those that are left.
pub open spec fn row(bytes: Seq<u8>, row_width: nat, i: nat) -> Seq<u8> {
    let from = i * row_width;
    let to = if from + row_width <= bytes.len() {
        from + row_width
    } else {
        bytes.len()
    };
    bytes.subrange(from as int, to as int)
}

/// One byte in the data column: its value in the base, with leading zeros up
/// to the field width of the base.
pub open spec fn field(byte: u8, base: Base) -> Seq<char> {
    zero_padded(byte as nat, base.spec_radix() as nat, base.spec_len() as nat)
}

/// The fields of the bytes of a row, one space between each two.
pub open spec fn fields(chunk: Seq<u8>, base: Base) -> Seq<char>
    decreases chunk.len(),
{
    if chunk.len() == 0 {
        Seq::empty()
    } else if chunk.len() == 1 {
        field(chunk[0], base)
    } else {
        fields(chunk.drop_last(), base) + seq![' '] + field(chunk.last(), base)
    }
}

/// The data cell of a row: its fields, then a field's width and one more of
/// spaces for each byte that the row falls short of `row_width`.
pub open spec fn data_cell(chunk: Seq<u8>, base: Base, row_width: nat) -> Seq<char> {
    fields(chunk, base) + repeated(
        ' ',
        ((row_width - chunk.len()) * (base.spec_len() + 1)) as nat,
    )
}

/// The last cell of a row: the glyph of each byte, then a space for each byte
/// that the row falls short of `row_width`.
pub open spec fn ascii_cell(chunk: Seq<u8>, row_width: nat) -> Seq<char> {
    Seq::new(chunk.len(), |i: int| glyph(chunk[i])) + repeated(
        ' ',
        (row_width - chunk.len()) as nat,
    )
}

/// One row of the body: the address of its first byte, written in the base
/// with leading zeros up to `address_width`, the data cell and the last cell,
/// each between two dividers.
pub open spec fn body_row(
    chunk: Seq<u8>,
    address: nat,
    base: Base,
    row_width: nat,
    address_width: nat,
) -> Seq<char> {
    seq![VERTICAL_DIVIDER] + zero_padded(address, base.spec_radix() as nat, address_width)
        + seq![VERTICAL_DIVIDER] + data_cell(chunk, base, row_width) + seq![VERTICAL_DIVIDER]
        + ascii_cell(chunk, row_width) + seq![VERTICAL_DIVIDER]
}

/// The rows of the body, from the lowest address up. The first byte stands at
/// `start_address`.
pub open spec fn body(
    bytes: Seq<u8>,
    layout: Layout,
    base: Base,
    row_width: nat,
    start_address: nat,
) -> Seq<Seq<char>> {
    Seq::new(
        row_count(bytes.len(), row_width),
        |i: int|
            body_row(
                row(bytes, row_width, i as nat),
                (start_address + i * row_width) as nat,
                base,
                row_width,
                layout.address.width,
            ),
    )
}

/// The two lines above the body: the upper edge and the labels.
pub open spec fn head(layout: Layout) -> Seq<Seq<char>> {
    seq![top_border(layout), header(layout)]
}

/// The whole table, line by line: the upper edge, the labels, the rows, the
/// lower edge.
pub open spec fn table(
    bytes: Seq<u8>,
    layout: Layout,
    base: Base,
    row_width: nat,
    start_address: nat,
) -> Seq<Seq<char>> {
    head(layout) + body(bytes, layout, base, row_width, start_address) + seq![
        bottom_border(layout),
    ]
}

/// The rows cover the bytes and no more: all rows but the last are full, and
/// the last one starts inside the bytes.
pub proof fn lemma_row_count(len: nat, row_width: nat)
    requires
        row_width > 0,
    ensures
        len == 0 <==> row_count(len, row_width) == 0,
        row_count(len, row_width) * row_width >= len,
        len > 0 ==> (row_count(len, row_width) - 1) * row_width < len,
        row_count(len, row_width) == len / row_width + if len % row_width == 0 {
            0nat
        } else {
            1nat
        },
{
    let rows = row_count(len, row_width);
    let above = (len + row_width - 1) as int;
    vstd::arithmetic::div_mod::lemma_fundamental_div_mod(above, row_width as int);
    vstd::arithmetic::div_mod::lemma_fundamental_div_mod(len as int, row_width as int);
    let q = len / row_width;
    let r = len % row_width;
    assert(rows == q + if r == 0 { 0nat } else { 1nat }) by (nonlinear_arith)
        requires
            row_width > 0,
            above == len + row_width - 1,
            above == row_width * rows + above % (row_width as int),
            0 <= above % (row_width as int) < row_width,
            len == row_width * q + r,
            0 <= r < row_width,
    ;
    assert(rows * row_width >= len && (len > 0 ==> (rows - 1) * row_width < len) && (len == 0
        <==> rows == 0)) by (nonlinear_arith)
        requires
            row_width > 0,
            len == row_width * q + r,
            0 <= r < row_width,
            rows == q + if r == 0 { 0nat } else { 1nat },
    ;
}

/// The address column of a file has room for every address in the file: no
/// address below `file_size` has more digits than the column is wide.
pub proof fn lemma_address_fits(file_size: nat, base: Base, address: nat)
    requires
        address < file_size,
    ensures
        digits(address, base.spec_radix() as nat).len() <= address_width(file_size, base),
        address_width(file_size, base) >= ADDRESS_LABEL@.len(),
{
    let radix = base.spec_radix() as nat;
    let needed = ceil_log(radix, file_size);
    lemma_ceil_log_exists(radix, file_size);
    reveal_strlit("address");
    if needed == 0 {
        vstd::arithmetic::power::lemma_pow0(radix as int);
        assert(address == 0);
        assert(digits(0, radix).len() == 1);
    } else {
        lemma_digits_fit(address, radix, needed);
    }
}

/// The width of a row of the body whose address cell takes `address_cell`
/// characters: the four dividers and the three cells.
pub open spec fn row_width_in_chars(address_cell: nat, base: Base, row_width: nat) -> nat {
    4 + address_cell + data_width(base, row_width) + row_width
}

/// A byte never has more digits than the field width of the base, so every
/// field is exactly that wide.
pub proof fn lemma_field_len(byte: u8, base: Base)
    ensures
        field(byte, base).len() == base.spec_len(),
{
    let radix = base.spec_radix() as nat;
    let width = base.spec_len() as nat;
    assert(pow(radix as int, width) > 255) by {
        reveal_with_fuel(pow, 9);
    }
    lemma_digits_fit(byte as nat, radix, width);
}

/// The fields of `n` bytes, `n` at least one, take `n` field widths and
/// `n - 1` spaces.
pub proof fn lemma_fields_len(chunk: Seq<u8>, base: Base)
    requires
        chunk.len() > 0,
    ensures
        fields(chunk, base).len() == chunk.len() * (base.spec_len() + 1) - 1,
    decreases chunk.len(),
{
    let unit = base.spec_len() + 1;
    if chunk.len() == 1 {
        lemma_field_len(chunk[0], base);
    } else {
        lemma_fields_len(chunk.drop_last(), base);
        lemma_field_len(chunk.last(), base);
        assert(chunk.len() * unit == (chunk.len() - 1) * unit + unit) by (nonlinear_arith);
    }
}

/// The data cell of a row that holds at least one byte and no more than
/// `row_width` is as wide as the data column, however many bytes it holds.
pub proof fn lemma_data_cell_len(chunk: Seq<u8>, base: Base, row_width: nat)
    requires
        0 < chunk.len() <= row_width,
    ensures
        data_cell(chunk, base, row_width).len() == data_width(base, row_width),
{
    let unit = base.spec_len() + 1;
    lemma_fields_len(chunk, base);
    assert(chunk.len() * unit + (row_width - chunk.len()) * unit == row_width * unit)
        by (nonlinear_arith);
    assert(chunk.len() * unit >= 1 && (row_width - chunk.len()) * unit >= 0) by (nonlinear_arith)
        requires
            0 < chunk.len() <= row_width,
            unit >= 1,
    ;
}

/// A row of the body that holds at least one byte and no more than
/// `row_width` is as wide as its address cell, the data column, the last
/// column and the four dividers together.
pub proof fn lemma_body_row_len(
    chunk: Seq<u8>,
    address: nat,
    base: Base,
    row_width: nat,
    address_width: nat,
)
    requires
        0 < chunk.len() <= row_width,
    ensures
        body_row(chunk, address, base, row_width, address_width).len() == row_width_in_chars(
            zero_padded(address, base.spec_radix() as nat, address_width).len(),
            base,
            row_width,
        ),
        ascii_cell(chunk, row_width).len() == row_width,
{
    lemma_data_cell_len(chunk, base, row_width);
}

/// Every row but the last holds `row_width` bytes. The last holds what is
/// left: the remainder of the division of the number of bytes by `row_width`,
/// or `row_width` where nothing remains. Each row holds the bytes that stand
/// at its place.
pub proof fn lemma_row_len(bytes: Seq<u8>, row_width: nat, i: nat)
    requires
        row_width > 0,
        i < row_count(bytes.len(), row_width),
    ensures
        i + 1 < row_count(bytes.len(), row_width) ==> row(bytes, row_width, i).len() == row_width,
        i + 1 == row_count(bytes.len(), row_width) ==> row(bytes, row_width, i).len() == if bytes.len()
            % row_width == 0 {
            row_width
        } else {
            bytes.len() % row_width
        },
        0 < row(bytes, row_width, i).len() <= row_width,
        i * row_width + row(bytes, row_width, i).len() <= bytes.len(),
        forall|k: int|
            0 <= k < row(bytes, row_width, i).len() ==> row(bytes, row_width, i)[k] == bytes[i
                * row_width + k],
{
    let len = bytes.len();
    let rows = row_count(len, row_width);
    lemma_row_count(len, row_width);
    vstd::arithmetic::div_mod::lemma_fundamental_div_mod(len as int, row_width as int);
    let q = len / row_width;
    let r = len % row_width;
    assert(i * row_width <= (rows - 1) * row_width) by (nonlinear_arith)
        requires
            i <= rows - 1,
            row_width > 0,
    ;
    if i + 1 < rows {
        assert((i + 1) * row_width <= (rows - 1) * row_width) by (nonlinear_arith)
            requires
                i + 1 <= rows - 1,
                row_width > 0,
        ;
        assert((i + 1) * row_width == i * row_width + row_width) by (nonlinear_arith);
    } else {
        assert(i * row_width + if r == 0 { row_width } else { r } == len) by (nonlinear_arith)
            requires
                len == row_width * q + r,
                i + 1 == q + if r == 0 { 0nat } else { 1nat },
                0 <= r < row_width,
        ;
    }
}

/// The address of the last row of the body, for a body of at least one row.
pub open spec fn last_address(len: nat, row_width: nat, start_address: nat) -> nat {
    (start_address + (row_count(len, row_width) - 1) * row_width) as nat
}

/// All rows of a body are equally wide, the last one included, wherever the
/// first address and the last take equally many characters in the address
/// column. They do so whenever the column has room for the last address.
pub proof fn lemma_rows_equally_wide(
    bytes: Seq<u8>,
    layout: Layout,
    base: Base,
    row_width: nat,
    start_address: nat,
)
    requires
        row_width > 0,
        bytes.len() > 0 ==> zero_padded(
            start_address,
            base.spec_radix() as nat,
            layout.address.width,
        ).len() == zero_padded(
            last_address(bytes.len(), row_width, start_address),
            base.spec_radix() as nat,
            layout.address.width,
        ).len(),
    ensures
        forall|i: int, j: int|
            0 <= i < row_count(bytes.len(), row_width) && 0 <= j < row_count(
                bytes.len(),
                row_width,
            ) ==> (#[trigger] body(bytes, layout, base, row_width, start_address)[i]).len() == (
            #[trigger] body(bytes, layout, base, row_width, start_address)[j]).len(),
{
    let rows = row_count(bytes.len(), row_width);
    let radix = base.spec_radix() as nat;
    let width = layout.address.width;
    let lines = body(bytes, layout, base, row_width, start_address);
    lemma_row_count(bytes.len(), row_width);
    assert forall|i: int| 0 <= i < rows implies (#[trigger] lines[i]).len() == row_width_in_chars(
        zero_padded(start_address, radix, width).len(),
        base,
        row_width,
    ) by {
        let address = (start_address + i * row_width) as nat;
        let last = last_address(bytes.len(), row_width, start_address);
        lemma_row_len(bytes, row_width, i as nat);
        lemma_body_row_len(row(bytes, row_width, i as nat), address, base, row_width, width);
        assert(0 <= i * row_width <= (rows - 1) * row_width) by (nonlinear_arith)
            requires
                0 <= i <= rows - 1,
                row_width > 0,
        ;
        lemma_digits_grow(start_address, address, radix);
        lemma_digits_grow(address, last, radix);
    }
}

/// In the table of a file, laid out for the size of that file, all rows of the
/// body are equally wide, whatever part of the file they show: each is as wide
/// as the three columns and the four dividers.
pub proof fn lemma_rows_of_file_equally_wide(
    bytes: Seq<u8>,
    file_size: nat,
    base: Base,
    row_width: nat,
    start_address: nat,
)
    requires
        row_width > 0,
        start_address + bytes.len() <= file_size,
    ensures
        forall|i: int|
            0 <= i < row_count(bytes.len(), row_width) ==> (#[trigger] body(
                bytes,
                layout_of(file_size, base, row_width),
                base,
                row_width,
                start_address,
            )[i]).len() == row_width_in_chars(address_width(file_size, base), base, row_width),
{
    let layout = layout_of(file_size, base, row_width);
    let rows = row_count(bytes.len(), row_width);
    let lines = body(bytes, layout, base, row_width, start_address);
    assert forall|i: int| 0 <= i < rows implies (#[trigger] lines[i]).len() == row_width_in_chars(
        address_width(file_size, base),
        base,
        row_width,
    ) by {
        let address = (start_address + i * row_width) as nat;
        lemma_row_len(bytes, row_width, i as nat);
        lemma_body_row_len(
            row(bytes, row_width, i as nat),
            address,
            base,
            row_width,
            layout.address.width,
        );
        lemma_address_fits(file_size, base, address);
    }
}

/// An edge of the frame is as wide as the three columns and the four corners
/// and joints.
pub proof fn lemma_border_len(left: char, joint: char, right: char, layout: Layout)
    ensures
        border(left, joint, right, layout).len() == 4 + layout.address.width + layout.data.width
            + layout.ascii.width,
{
}

/// The line of labels is as wide as the edges of the frame wherever no label
/// is longer than its column is wide.
pub proof fn lemma_header_len(layout: Layout)
    requires
        layout.address.label.len() <= layout.address.width,
        layout.data.label.len() <= layout.data.width,
        layout.ascii.label.len() <= layout.ascii.width,
    ensures
        header(layout).len() == 4 + layout.address.width + layout.data.width
            + layout.ascii.width,
{
}

/// A row of the body ends in its last cell between two dividers.
pub proof fn lemma_body_row_end(
    chunk: Seq<u8>,
    address: nat,
    base: Base,
    row_width: nat,
    address_width: nat,
)
    requires
        0 < chunk.len() <= row_width,
    ensures
        ({
            let line = body_row(chunk, address, base, row_width, address_width);
            &&& line.len() >= row_width + 2
            &&& line.subrange(line.len() - row_width - 2, line.len() as int) == seq![
                VERTICAL_DIVIDER,
            ] + ascii_cell(chunk, row_width) + seq![VERTICAL_DIVIDER]
        }),
{
    let line = body_row(chunk, address, base, row_width, address_width);
    lemma_body_row_len(chunk, address, base, row_width, address_width);
    assert(line.subrange(line.len() - row_width - 2, line.len() as int) =~= seq![VERTICAL_DIVIDER]
        + ascii_cell(chunk, row_width) + seq![VERTICAL_DIVIDER]);
}

/// The tables of the same part of a file in decimal and in hexadecimal have
/// the same number of lines, the same last column and, row by row, the same
/// last cell. The data column is wider in decimal by one character for each
/// byte of a row, and the address column is no narrower in decimal; the two
/// address columns are equally wide for a file of up to ten million bytes. The
/// rows differ in width by what these two columns differ.
pub proof fn lemma_decimal_and_hexadecimal(
    bytes: Seq<u8>,
    file_size: nat,
    row_width: nat,
    start_address: nat,
)
    requires
        row_width > 0,
        start_address + bytes.len() <= file_size,
    ensures
        ({
            let decimal_layout = layout_of(file_size, Base::Decimal, row_width);
            let hexadecimal_layout = layout_of(file_size, Base::Hexadecimal, row_width);
            let decimal = table(bytes, decimal_layout, Base::Decimal, row_width, start_address);
            let hexadecimal = table(
                bytes,
                hexadecimal_layout,
                Base::Hexadecimal,
                row_width,
                start_address,
            );
            &&& decimal.len() == hexadecimal.len()
            &&& decimal.len() == row_count(bytes.len(), row_width) + 3
            &&& decimal_layout.ascii == hexadecimal_layout.ascii
            &&& decimal_layout.address.label == hexadecimal_layout.address.label
            &&& decimal_layout.data.width == hexadecimal_layout.data.width + row_width
            &&& decimal_layout.address.width >= hexadecimal_layout.address.width
            &&& file_size <= 10_000_000 ==> decimal_layout.address.width
                == hexadecimal_layout.address.width
            &&& forall|i: int|
                2 <= i < 2 + row_count(bytes.len(), row_width) ==> {
                    let d = #[trigger] decimal[i];
                    let h = hexadecimal[i];
                    &&& d.len() == h.len() + row_width + decimal_layout.address.width
                        - hexadecimal_layout.address.width
                    &&& h.len() >= row_width + 2
                    &&& d.subrange(d.len() - row_width - 2, d.len() as int) == h.subrange(
                        h.len() - row_width - 2,
                        h.len() as int,
                    )
                }
        }),
{
    let decimal_layout = layout_of(file_size, Base::Decimal, row_width);
    let hexadecimal_layout = layout_of(file_size, Base::Hexadecimal, row_width);
    let decimal = table(bytes, decimal_layout, Base::Decimal, row_width, start_address);
    let hexadecimal = table(bytes, hexadecimal_layout, Base::Hexadecimal, row_width, start_address);
    let rows = row_count(bytes.len(), row_width);
    assert(row_width * 4 == row_width * 3 + row_width && row_width * 3 >= 1) by (nonlinear_arith)
        requires
            row_width > 0,
    ;
    let in_decimal = ceil_log(10, file_size);
    lemma_ceil_log_exists(10, file_size);
    lemma_pow_increases_in_base(10, 16, in_decimal);
    lemma_ceil_log_at_most(16, file_size, in_decimal);
    if file_size <= 10_000_000 {
        assert(pow(10, 7) == 10_000_000) by {
            reveal_with_fuel(pow, 8);
        }
        lemma_ceil_log_at_most(10, file_size, 7);
        reveal_strlit("address");
    }
    lemma_rows_of_file_equally_wide(bytes, file_size, Base::Decimal, row_width, start_address);
    lemma_rows_of_file_equally_wide(bytes, file_size, Base::Hexadecimal, row_width, start_address);
    assert forall|i: int| 2 <= i < 2 + rows implies ({
        let d = #[trigger] decimal[i];
        let h = hexadecimal[i];
        &&& d.len() == h.len() + row_width + decimal_layout.address.width
            - hexadecimal_layout.address.width
        &&& h.len() >= row_width + 2
        &&& d.subrange(d.len() - row_width - 2, d.len() as int) == h.subrange(
            h.len() - row_width - 2,
            h.len() as int,
        )
    }) by {
        let chunk = row(bytes, row_width, (i - 2) as nat);
        let address = (start_address + (i - 2) * row_width) as nat;
        let in_decimal_body = body(bytes, decimal_layout, Base::Decimal, row_width, start_address);
        let in_hexadecimal_body = body(
            bytes,
            hexadecimal_layout,
            Base::Hexadecimal,
            row_width,
            start_address,
        );
        assert(decimal[i] == in_decimal_body[i - 2]);
        assert(hexadecimal[i] == in_hexadecimal_body[i - 2]);
        lemma_row_len(bytes, row_width, (i - 2) as nat);
        lemma_body_row_end(
            chunk,
            address,
            Base::Decimal,
            row_width,
            decimal_layout.address.width,
        );
        lemma_body_row_end(
            chunk,
            address,
            Base::Hexadecimal,
            row_width,
            hexadecimal_layout.address.width,
        );
    }
}

/// With six or more bytes in a row every label has room in its column, and
/// all lines of the table of a file are equally wide: the edges of the frame,
/// the labels and every row. The right edge of the frame is then straight.
pub proof fn lemma_lines_of_file_equally_wide(
    bytes: Seq<u8>,
    file_size: nat,
    base: Base,
    row_width: nat,
    start_address: nat,
)
    requires
        row_width >= 6,
        start_address + bytes.len() <= file_size,
    ensures
        forall|i: int|
            0 <= i < row_count(bytes.len(), row_width) + 3 ==> (#[trigger] table(
                bytes,
                layout_of(file_size, base, row_width),
                base,
                row_width,
                start_address,
            )[i]).len() == row_width_in_chars(address_width(file_size, base), base, row_width),
{
    let layout = layout_of(file_size, base, row_width);
    let rows = row_count(bytes.len(), row_width);
    let lines = table(bytes, layout, base, row_width, start_address);
    let rows_alone = body(bytes, layout, base, row_width, start_address);
    reveal_strlit("address");
    reveal_strlit("ascii");
    reveal_strlit(" data");
    reveal_strlit("binary");
    reveal_strlit("octal");
    reveal_strlit("decimal");
    reveal_strlit("hexadecimal");
    assert(row_width * (base.spec_len() + 1) >= 6 * (base.spec_len() + 1)) by (nonlinear_arith)
        requires
            row_width >= 6,
            base.spec_len() >= 0,
    ;
    lemma_header_len(layout);
    lemma_border_len(TOP_LEFT_CORNER, TOP_JUNCTION, TOP_RIGHT_CORNER, layout);
    lemma_border_len(BOTTOM_LEFT_CORNER, BOTTOM_JUNCTION, BOTTOM_RIGHT_CORNER, layout);
    lemma_rows_of_file_equally_wide(bytes, file_size, base, row_width, start_address);
    assert forall|i: int| 0 <= i < rows + 3 implies (#[trigger] lines[i]).len()
        == row_width_in_chars(address_width(file_size, base), base, row_width) by {
        if 2 <= i < 2 + rows {
            assert(lines[i] == rows_alone[i - 2]);
        }
    }
}

/// What each of the lines holds.
pub open spec fn texts(lines: Seq<String>) -> Seq<Seq<char>> {
    Seq::new(lines.len(), |i: int| lines[i]@)
}

} // verus!
