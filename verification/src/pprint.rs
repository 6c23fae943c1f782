//! The table written out: its columns worked out from the size of the input,
//! and its lines built one by one.

use crate::constant::{
    ADDRESS_LABEL, ASCII_LABEL, BOTTOM_JUNCTION, BOTTOM_LEFT_CORNER, BOTTOM_RIGHT_CORNER, COLUMNS,
    HORIZONTAL_DIVIDER, TOP_JUNCTION, TOP_LEFT_CORNER, TOP_RIGHT_CORNER, VERTICAL_DIVIDER,
};
use crate::numeral::{ceil_log_of, digits, push_zero_padded};
use crate::options::{Base, Options};
use crate::table::{
    ascii_cell, body, body_row, border, bottom_border, data_cell, fields, head, header, layout_of,
    lemma_address_fits, lemma_lines_of_file_equally_wide, lemma_row_count, row, row_count, table,
    texts, Column, Layout,
};
use crate::text::{push_centered, push_left_aligned, push_repeated};
use crate::utils::{glyph, itoa};
use vstd::prelude::*;
use vstd::slice::slice_subrange;

verus! {

/// The three columns of a table: for each its label and its width in
/// characters.
#[derive(Debug)]
pub struct Labels {
    pub address: (String, usize),
    pub data: (String, usize),
    pub ascii: (String, usize),
}

impl View for Labels {
    type V = Layout;

    open spec fn view(&self) -> Layout {
        Layout {
            address: Column { label: self.address.0@, width: self.address.1 as nat },
            data: Column { label: self.data.0@, width: self.data.1 as nat },
            ascii: Column { label: self.ascii.0@, width: self.ascii.1 as nat },
        }
    }
}

impl Labels {
    /// The columns with the given labels and widths.
    pub fn new(address: (String, usize), data: (String, usize), ascii: (String, usize)) -> (labels:
        Self)
        ensures
            labels.address == address,
            labels.data == data,
            labels.ascii == ascii,
    {
        Self { address, data, ascii }
    }
}

/// The columns of the table of a file of `file_size` bytes, shown in `base`
/// with `row_width` bytes in a row. The address column has room for the label
/// and for every address in the file.
pub fn compute_layout(file_size: u64, base: Base, row_width: usize) -> (labels: Labels)
    requires
        row_width > 0,
        row_width * (base.spec_len() + 1) <= usize::MAX,
    ensures
        labels@ == layout_of(file_size as nat, base, row_width as nat),
        labels.address.1 >= ADDRESS_LABEL@.len(),
        forall|address: nat|
            address < file_size ==> (#[trigger] digits(address, base.spec_radix() as nat)).len()
                <= labels.address.1,
{
    let address_label = String::from_str(ADDRESS_LABEL);
    let needed = ceil_log_of(file_size, base.radix());
    let label_length = ADDRESS_LABEL.unicode_len();
    let address_label_length = if needed > label_length {
        needed
    } else {
        label_length
    };
    let mut data_label = String::from_str(base.as_str());
    data_label.append(" data");
    assert(row_width * (base.spec_len() + 1) >= 1) by (nonlinear_arith)
        requires
            row_width >= 1,
            base.spec_len() >= 0,
    ;
    let data_label_length = row_width * (base.len() + 1) - 1;
    let ascii_label = String::from_str(ASCII_LABEL);
    let ascii_label_length = row_width;
    proof {
        assert forall|address: nat| address < file_size implies (#[trigger] digits(
            address,
            base.spec_radix() as nat,
        )).len() <= address_label_length by {
            lemma_address_fits(file_size as nat, base, address);
        }
    }
    Labels::new(
        (address_label, address_label_length),
        (data_label, data_label_length),
        (ascii_label, ascii_label_length),
    )
}

/// A horizontal edge of the frame.
fn border_line(left: char, joint: char, right: char, labels: &Labels) -> (line: String)
    ensures
        line@ == border(left, joint, right, labels@),
{
    let mut line = String::new();
    line.push(left);
    push_repeated(&mut line, HORIZONTAL_DIVIDER, labels.address.1);
    line.push(joint);
    push_repeated(&mut line, HORIZONTAL_DIVIDER, labels.data.1);
    line.push(joint);
    push_repeated(&mut line, HORIZONTAL_DIVIDER, labels.ascii.1);
    line.push(right);
    assert(line@ =~= border(left, joint, right, labels@));
    line
}

/// The line of labels.
fn header_line(labels: &Labels) -> (line: String)
    ensures
        line@ == header(labels@),
{
    let mut line = String::new();
    line.push(VERTICAL_DIVIDER);
    push_left_aligned(&mut line, labels.address.0.as_str(), labels.address.1);
    line.push(VERTICAL_DIVIDER);
    push_centered(&mut line, labels.data.0.as_str(), labels.data.1);
    line.push(VERTICAL_DIVIDER);
    push_centered(&mut line, labels.ascii.0.as_str(), labels.ascii.1);
    line.push(VERTICAL_DIVIDER);
    assert(line@ =~= header(labels@));
    line
}

/// The two lines above the body: the upper edge of the frame and the labels.
pub fn render_header(labels: &Labels) -> (lines: Vec<String>)
    ensures
        texts(lines@) == head(labels@),
{
    let mut lines: Vec<String> = Vec::new();
    lines.push(border_line(TOP_LEFT_CORNER, TOP_JUNCTION, TOP_RIGHT_CORNER, labels));
    lines.push(header_line(labels));
    assert(texts(lines@) =~= head(labels@));
    lines
}

/// The line below the body: the lower edge of the frame.
pub fn render_footer(labels: &Labels) -> (line: String)
    ensures
        line@ == bottom_border(labels@),
{
    border_line(BOTTOM_LEFT_CORNER, BOTTOM_JUNCTION, BOTTOM_RIGHT_CORNER, labels)
}

/// Appends the data cell of a row to `out`.
fn push_data_cell(out: &mut String, chunk: &[u8], base: Base, row_width: usize)
    requires
        chunk.len() <= row_width,
        row_width * (base.spec_len() + 1) <= usize::MAX,
    ensures
        final(out)@ == old(out)@ + data_cell(chunk@, base, row_width as nat),
{
    let radix = base.radix();
    let length = base.len();
    let mut no: usize = 0;
    while no < chunk.len()
        invariant
            no <= chunk.len(),
            radix == base.spec_radix(),
            length == base.spec_len(),
            out@ == old(out)@ + fields(chunk@.take(no as int), base),
        decreases chunk.len() - no,
    {
        if no > 0 {
            out.push(' ');
        }
        push_zero_padded(out, chunk[no] as u64, radix, length);
        proof {
            let done = chunk@.take(no + 1);
            assert(done.drop_last() =~= chunk@.take(no as int));
            assert(done.last() == chunk@[no as int]);
            assert(out@ =~= old(out)@ + fields(done, base));
        }
        no += 1;
    }
    assert(chunk@.take(no as int) =~= chunk@);
    assert((row_width - chunk.len()) * (length + 1) <= row_width * (length + 1))
        by (nonlinear_arith)
        requires
            chunk.len() <= row_width,
    ;
    push_repeated(out, ' ', (row_width - chunk.len()) * (length + 1));
    assert(out@ =~= old(out)@ + data_cell(chunk@, base, row_width as nat));
}

/// Appends the last cell of a row to `out`.
fn push_ascii_cell(out: &mut String, chunk: &[u8], row_width: usize)
    requires
        chunk.len() <= row_width,
    ensures
        final(out)@ == old(out)@ + ascii_cell(chunk@, row_width as nat),
{
    let mut no: usize = 0;
    while no < chunk.len()
        invariant
            no <= chunk.len(),
            out@ == old(out)@ + Seq::new(no as nat, |i: int| glyph(chunk@[i])),
        decreases chunk.len() - no,
    {
        out.push(itoa(chunk[no]));
        assert(out@ =~= old(out)@ + Seq::new((no + 1) as nat, |i: int| glyph(chunk@[i])));
        no += 1;
    }
    push_repeated(out, ' ', row_width - chunk.len());
    assert(out@ =~= old(out)@ + ascii_cell(chunk@, row_width as nat));
}

/// One row of the body.
fn body_line(chunk: &[u8], address: u64, base: Base, row_width: usize, address_width: usize) -> (line:
    String)
    requires
        chunk.len() <= row_width,
        row_width * (base.spec_len() + 1) <= usize::MAX,
    ensures
        line@ == body_row(
            chunk@,
            address as nat,
            base,
            row_width as nat,
            address_width as nat,
        ),
{
    let mut line = String::new();
    line.push(VERTICAL_DIVIDER);
    push_zero_padded(&mut line, address, base.radix(), address_width);
    line.push(VERTICAL_DIVIDER);
    push_data_cell(&mut line, chunk, base, row_width);
    line.push(VERTICAL_DIVIDER);
    push_ascii_cell(&mut line, chunk, row_width);
    line.push(VERTICAL_DIVIDER);
    assert(line@ =~= body_row(
        chunk@,
        address as nat,
        base,
        row_width as nat,
        address_width as nat,
    ));
    line
}

/// The rows of the body for `bytes`, the first of which stands at
/// `start_address`.
pub fn render_body(
    bytes: &[u8],
    base: Base,
    row_width: usize,
    address_width: usize,
    start_address: u64,
) -> (lines: Vec<String>)
    requires
        row_width > 0,
        row_width * (base.spec_len() + 1) <= usize::MAX,
        start_address + bytes.len() <= u64::MAX,
    ensures
        lines.len() == row_count(bytes@.len(), row_width as nat),
        forall|i: int|
            0 <= i < lines.len() ==> (#[trigger] lines[i])@ == body_row(
                row(bytes@, row_width as nat, i as nat),
                (start_address + i * row_width) as nat,
                base,
                row_width as nat,
                address_width as nat,
            ),
{
    let len = bytes.len();
    proof {
        lemma_row_count(len as nat, row_width as nat);
        vstd::arithmetic::div_mod::lemma_fundamental_div_mod(len as int, row_width as int);
        assert(len % row_width != 0 ==> len / row_width < len) by (nonlinear_arith)
            requires
                row_width > 0,
                len == row_width * (len / row_width) + len % row_width,
                0 <= len % row_width,
                0 <= len / row_width,
        ;
    }
    let rows = if len % row_width == 0 {
        len / row_width
    } else {
        len / row_width + 1
    };
    let mut lines: Vec<String> = Vec::new();
    let mut index: usize = 0;
    while index < rows
        invariant
            index <= rows,
            len == bytes.len(),
            row_width > 0,
            row_width * (base.spec_len() + 1) <= usize::MAX,
            start_address + len <= u64::MAX,
            rows == row_count(len as nat, row_width as nat),
            rows > 0 ==> (rows - 1) * row_width < len,
            lines.len() == index,
            forall|i: int|
                0 <= i < index ==> (#[trigger] lines[i])@ == body_row(
                    row(bytes@, row_width as nat, i as nat),
                    (start_address + i * row_width) as nat,
                    base,
                    row_width as nat,
                    address_width as nat,
                ),
        decreases rows - index,
    {
        assert(index * row_width <= (rows - 1) * row_width) by (nonlinear_arith)
            requires
                index <= rows - 1,
                row_width > 0,
        ;
        let from = index * row_width;
        let to = if len - from < row_width {
            len
        } else {
            from + row_width
        };
        let chunk = slice_subrange(bytes, from, to);
        let line = body_line(chunk, start_address + from as u64, base, row_width, address_width);
        lines.push(line);
        index += 1;
    }
    lines
}

/// The whole table for `bytes`, line by line: the upper edge of the frame, the
/// labels, one row for each `row_width` bytes and one for those that are left,
/// and the lower edge. The first byte stands at `start_address`.
pub fn render(
    bytes: &[u8],
    labels: &Labels,
    base: Base,
    row_width: usize,
    start_address: u64,
) -> (lines: Vec<String>)
    requires
        row_width > 0,
        row_width * (base.spec_len() + 1) <= usize::MAX,
        start_address + bytes.len() <= u64::MAX,
    ensures
        texts(lines@) == table(
            bytes@,
            labels@,
            base,
            row_width as nat,
            start_address as nat,
        ),
{
    let mut lines = render_header(labels);
    let mut rows = render_body(bytes, base, row_width, labels.address.1, start_address);
    let ghost above = lines@;
    let ghost between = rows@;
    lines.append(&mut rows);
    lines.push(render_footer(labels));
    proof {
        let wanted = table(bytes@, labels@, base, row_width as nat, start_address as nat);
        assert(lines@ == (above + between).push(lines@.last()));
        assert(texts(above) == head(labels@));
        assert(texts(lines@).len() == wanted.len());
        assert forall|i: int| 0 <= i < wanted.len() implies texts(lines@)[i] == wanted[i] by {
            if i < 2 {
                assert(texts(above)[i] == above[i]@);
            } else if i < 2 + between.len() {
                assert(lines@[i] == between[i - 2]);
            }
        }
        assert(texts(lines@) =~= wanted);
    }
    lines
}

/// Shows one file as a table with sixteen bytes in a row. The columns are
/// worked out once, from the size of the file and the base, and stay as they
/// are.
pub struct PrettyPrinter {
    labels: Labels,
    file_size: u64,
    options: Options,
}

impl PrettyPrinter {
    /// The size of the file in bytes.
    pub closed spec fn file_size(&self) -> u64 {
        self.file_size
    }

    /// The settings of the run.
    pub closed spec fn options(&self) -> Options {
        self.options
    }

    /// The columns of the table.
    pub open spec fn layout(&self) -> Layout {
        layout_of(self.file_size() as nat, self.options().base, COLUMNS as nat)
    }

    #[verifier::type_invariant]
    spec fn columns_fixed(&self) -> bool {
        self.labels@ == layout_of(self.file_size as nat, self.options.base, COLUMNS as nat)
    }

    /// The printer for a file of `file_size` bytes.
    pub fn new(options: Options, file_size: u64) -> (printer: Self)
        ensures
            printer.options() == options,
            printer.file_size() == file_size,
    {
        let labels = compute_layout(file_size, options.base, COLUMNS);
        Self { labels, file_size, options }
    }

    /// The number of bytes at the start of the file that are passed over.
    pub fn skip(&self) -> (n: u64)
        ensures
            n == self.options().skip,
    {
        self.options.skip
    }

    /// The number of bytes to read from the file: as many as the settings
    /// allow, and no more than the file holds.
    pub fn buffer_size(&self) -> (n: u64)
        ensures
            n == if self.options().limit < self.file_size() {
                self.options().limit
            } else {
                self.file_size()
            },
    {
        if self.options.limit < self.file_size {
            self.options.limit
        } else {
            self.file_size
        }
    }

    /// The whole table for the bytes read, with addresses that start at zero.
    /// Where no more bytes were read than the file holds, all lines are equally
    /// wide.
    pub fn pretty_print(&self, buffer: &[u8]) -> (lines: Vec<String>)
        ensures
            texts(lines@) == table(buffer@, self.layout(), self.options().base, COLUMNS as nat, 0),
            lines.len() == row_count(buffer@.len(), COLUMNS as nat) + 3,
            buffer.len() <= self.file_size() ==> forall|i: int, j: int|
                0 <= i < lines.len() && 0 <= j < lines.len() ==> (#[trigger] lines[i])@.len() == (
                #[trigger] lines[j])@.len(),
    {
        let mut lines = self.pretty_print_header();
        let mut rows = self.pretty_print_body(buffer);
        let ghost above = lines@;
        let ghost between = rows@;
        lines.append(&mut rows);
        lines.push(self.pretty_print_footer());
        proof {
            let base = self.options().base;
            let wanted = table(buffer@, self.layout(), base, COLUMNS as nat, 0);
            assert(lines@ == (above + between).push(lines@.last()));
            assert(texts(lines@).len() == wanted.len());
            assert forall|i: int| 0 <= i < wanted.len() implies texts(lines@)[i] == wanted[i] by {
                if i < 2 {
                    assert(texts(above)[i] == above[i]@);
                } else if i < 2 + between.len() {
                    assert(lines@[i] == between[i - 2]);
                    assert(texts(between)[i - 2] == between[i - 2]@);
                }
            }
            assert(texts(lines@) =~= wanted);
            if buffer.len() <= self.file_size() {
                lemma_lines_of_file_equally_wide(
                    buffer@,
                    self.file_size() as nat,
                    base,
                    COLUMNS as nat,
                    0,
                );
                assert forall|i: int, j: int|
                    0 <= i < lines.len() && 0 <= j < lines.len() implies (#[trigger] lines[i])@.len()
                    == (#[trigger] lines[j])@.len() by {
                    assert(lines[i]@ == texts(lines@)[i]);
                    assert(lines[j]@ == texts(lines@)[j]);
                }
            }
        }
        lines
    }

    /// The two lines above the body: the upper edge of the frame and the
    /// labels.
    pub fn pretty_print_header(&self) -> (lines: Vec<String>)
        ensures
            texts(lines@) == head(self.layout()),
    {
        proof {
            use_type_invariant(self);
        }
        render_header(&self.labels)
    }

    /// The rows of the body for `data`, with addresses that start at zero.
    pub fn pretty_print_body(&self, data: &[u8]) -> (lines: Vec<String>)
        ensures
            texts(lines@) == body(data@, self.layout(), self.options().base, COLUMNS as nat, 0),
    {
        proof {
            use_type_invariant(self);
        }
        let lines = render_body(data, self.options.base, COLUMNS, self.labels.address.1, 0);
        assert(texts(lines@) =~= body(
            data@,
            self.layout(),
            self.options().base,
            COLUMNS as nat,
            0,
        ));
        lines
    }

    /// The line below the body: the lower edge of the frame.
    pub fn pretty_print_footer(&self) -> (line: String)
        ensures
            line@ == bottom_border(self.layout()),
    {
        proof {
            use_type_invariant(self);
        }
        render_footer(&self.labels)
    }
}

} // verus!
