use louis::options::Base;
use louis::pprint::{compute_layout, render, render_body, render_footer, render_header, Labels};

fn width(line: &str) -> usize {
    line.chars().count()
}

fn spaces(n: usize) -> String {
    " ".repeat(n)
}

/// The ascii cell of a body row: what stands between the last two dividers.
fn last_cell(line: &str, row_width: usize) -> String {
    let chars: Vec<char> = line.chars().collect();
    let end = chars.len() - 1;
    chars[end - row_width..end].iter().collect()
}

#[test]
fn four_bytes_in_hexadecimal() {
    let bytes = [0x41u8, 0x42, 0x0A, 0xFF];
    let labels = compute_layout(4, Base::Hexadecimal, 16);
    assert_eq!(labels.address.1, 7);
    assert_eq!(labels.data.1, 47);
    assert_eq!(labels.ascii.1, 16);
    let lines = render(&bytes, &labels, Base::Hexadecimal, 16, 0);
    assert_eq!(lines.len(), 4);
    // Digits beyond nine are written in lower case, in the data column and
    // in the address column alike.
    let row = format!(
        "│0000000│41 42 0a ff{}│AB•×{}│",
        spaces(36),
        spaces(12)
    );
    assert_eq!(lines[2], row);
    assert_eq!(
        lines[0],
        format!("┌{}┬{}┬{}┐", "─".repeat(7), "─".repeat(47), "─".repeat(16))
    );
    assert_eq!(
        lines[1],
        format!(
            "│address│{}hexadecimal data{}│{}ascii{}│",
            spaces(15),
            spaces(16),
            spaces(5),
            spaces(6)
        )
    );
    assert_eq!(
        lines[3],
        format!("└{}┴{}┴{}┘", "─".repeat(7), "─".repeat(47), "─".repeat(16))
    );
}

#[test]
fn empty_input_has_frame_and_labels_only() {
    for base in [Base::Binary, Base::Octal, Base::Decimal, Base::Hexadecimal] {
        let labels = compute_layout(0, base, 16);
        assert_eq!(labels.address.1, 7);
        let lines = render(&[], &labels, base, 16, 0);
        assert_eq!(lines.len(), 3);
        assert!(lines[0].starts_with('┌'));
        assert!(lines[1].starts_with("│address│"));
        assert!(lines[2].starts_with('└'));
        assert_eq!(render_body(&[], base, 16, labels.address.1, 0).len(), 0);
    }
}

#[test]
fn all_lines_are_equally_wide() {
    let bytes: Vec<u8> = (0..=255u8).cycle().take(1000).collect();
    for base in [Base::Binary, Base::Octal, Base::Decimal, Base::Hexadecimal] {
        for row_width in [6usize, 7, 8, 16, 33] {
            for len in [0usize, 1, 5, 6, 16, 17, 999, 1000] {
                let labels = compute_layout(len as u64, base, row_width);
                let lines = render(&bytes[..len], &labels, base, row_width, 0);
                let expected = 4 + labels.address.1 + labels.data.1 + labels.ascii.1;
                for line in &lines {
                    assert_eq!(width(line), expected);
                }
            }
        }
    }
}

#[test]
fn rows_are_equally_wide_with_narrow_columns() {
    let bytes: Vec<u8> = (0..100u8).collect();
    for base in [Base::Binary, Base::Octal, Base::Decimal, Base::Hexadecimal] {
        for row_width in [1usize, 2, 3, 5] {
            let labels = compute_layout(100, base, row_width);
            let rows = render_body(&bytes, base, row_width, labels.address.1, 0);
            let expected = 4 + labels.address.1 + labels.data.1 + row_width;
            for row in &rows {
                assert_eq!(width(row), expected);
            }
        }
    }
}

#[test]
fn partial_last_row_is_padded() {
    let bytes: Vec<u8> = (b'a'..=b'z').collect();
    let labels = compute_layout(26, Base::Decimal, 16);
    let lines = render(&bytes, &labels, Base::Decimal, 16, 0);
    assert_eq!(lines.len(), 5);
    assert_eq!(
        lines[2],
        "│0000000│097 098 099 100 101 102 103 104 105 106 107 108 109 110 111 112│abcdefghijklmnop│"
    );
    assert_eq!(
        lines[3],
        format!(
            "│0000016│113 114 115 116 117 118 119 120 121 122{}│qrstuvwxyz{}│",
            spaces(6 * 4),
            spaces(6)
        )
    );
}

#[test]
fn row_count_is_quotient_rounded_up() {
    let bytes = [0x30u8; 100];
    for row_width in [1usize, 2, 3, 7, 16, 100, 101] {
        for len in 0..=100usize {
            let rows = render_body(&bytes[..len], Base::Hexadecimal, row_width, 7, 0);
            assert_eq!(rows.len(), (len + row_width - 1) / row_width);
            if let Some(last) = rows.last() {
                let held = last_cell(last, row_width)
                    .chars()
                    .filter(|c| *c != ' ')
                    .count();
                let left = if len % row_width == 0 {
                    row_width
                } else {
                    len % row_width
                };
                assert_eq!(held, left);
            }
            for row in rows.iter().take(rows.len().saturating_sub(1)) {
                assert_eq!(last_cell(row, row_width), "0".repeat(row_width));
            }
        }
    }
}

#[test]
fn decimal_and_hexadecimal_differ_in_data_only() {
    let bytes: Vec<u8> = (0..=255u8).collect();
    let decimal_labels = compute_layout(256, Base::Decimal, 16);
    let hexadecimal_labels = compute_layout(256, Base::Hexadecimal, 16);
    assert_eq!(decimal_labels.address, hexadecimal_labels.address);
    assert_eq!(decimal_labels.ascii, hexadecimal_labels.ascii);
    assert_eq!(decimal_labels.data.1, 63);
    assert_eq!(hexadecimal_labels.data.1, 47);
    assert_eq!(decimal_labels.data.0, "decimal data");
    assert_eq!(hexadecimal_labels.data.0, "hexadecimal data");
    let decimal = render(&bytes, &decimal_labels, Base::Decimal, 16, 0);
    let hexadecimal = render(&bytes, &hexadecimal_labels, Base::Hexadecimal, 16, 0);
    assert_eq!(decimal.len(), hexadecimal.len());
    assert_eq!(decimal.len(), 19);
    for (d, h) in decimal.iter().zip(hexadecimal.iter()) {
        assert_eq!(width(d), width(h) + 16);
    }
    for i in 2..18 {
        assert_eq!(last_cell(&decimal[i], 16), last_cell(&hexadecimal[i], 16));
    }
    assert!(decimal[3].starts_with("│0000016│016 017"));
    assert!(hexadecimal[3].starts_with("│0000010│10 11"));
}

#[test]
fn address_is_written_in_the_base() {
    let bytes = [0u8; 40];
    let binary = render_body(&bytes, Base::Binary, 16, 7, 0);
    assert!(binary[1].starts_with("│0010000│00000000 00000000"));
    assert!(binary[2].starts_with("│0100000│"));
    let octal = render_body(&bytes, Base::Octal, 16, 7, 0);
    assert!(octal[1].starts_with("│0000020│000 000"));
    assert!(octal[2].starts_with("│0000040│"));
    let decimal = render_body(&bytes, Base::Decimal, 16, 7, 0);
    assert!(decimal[2].starts_with("│0000032│"));
    let hexadecimal = render_body(&bytes, Base::Hexadecimal, 16, 7, 0);
    assert!(hexadecimal[2].starts_with("│0000020│00 00"));
}

#[test]
fn addresses_start_where_told() {
    let bytes = [0xABu8; 20];
    let rows = render_body(&bytes, Base::Hexadecimal, 8, 7, 0x1FF8);
    assert_eq!(rows.len(), 3);
    assert!(rows[0].starts_with("│0001ff8│ab ab"));
    assert!(rows[1].starts_with("│0002000│"));
    assert!(rows[2].starts_with("│0002008│"));
}

#[test]
fn long_address_is_written_in_full() {
    let bytes = [0u8; 17];
    let rows = render_body(&bytes, Base::Hexadecimal, 1, 1, 0);
    assert_eq!(rows.len(), 17);
    assert_eq!(rows[15], "│f│00│•│");
    assert_eq!(rows[16], "│10│00│•│");
    assert_ne!(width(&rows[15]), width(&rows[16]));
}

#[test]
fn labels_longer_than_their_column_are_kept_whole() {
    let labels = compute_layout(10, Base::Hexadecimal, 1);
    assert_eq!(labels.data.1, 2);
    assert_eq!(labels.ascii.1, 1);
    let head = render_header(&labels);
    assert_eq!(head[0], "┌───────┬──┬─┐");
    assert_eq!(head[1], "│address│hexadecimal data│ascii│");
    assert_eq!(render_footer(&labels), "└───────┴──┴─┘");
}

#[test]
fn header_cells_are_aligned() {
    let labels = Labels::new(
        (String::from("ab"), 5),
        (String::from("cd"), 5),
        (String::from("ef"), 6),
    );
    let head = render_header(&labels);
    assert_eq!(head.len(), 2);
    assert_eq!(head[0], "┌─────┬─────┬──────┐");
    assert_eq!(head[1], "│ab   │ cd  │  ef  │");
    assert_eq!(render_footer(&labels), "└─────┴─────┴──────┘");
}

#[test]
fn address_column_has_room_for_every_address() {
    let cases: [(u64, Base, usize); 22] = [
        (0, Base::Hexadecimal, 7),
        (1, Base::Hexadecimal, 7),
        (2, Base::Binary, 7),
        (128, Base::Binary, 7),
        (129, Base::Binary, 8),
        (256, Base::Binary, 8),
        (257, Base::Binary, 9),
        (2_097_152, Base::Octal, 7),
        (2_097_153, Base::Octal, 8),
        (10_000_000, Base::Decimal, 7),
        (10_000_001, Base::Decimal, 8),
        (100_000_000, Base::Decimal, 8),
        (100_000_001, Base::Decimal, 9),
        (0x1000_0000, Base::Hexadecimal, 7),
        (0x1000_0001, Base::Hexadecimal, 8),
        (0x1_0000_0000, Base::Hexadecimal, 8),
        (0x1_0000_0001, Base::Hexadecimal, 9),
        (u64::MAX, Base::Binary, 64),
        (u64::MAX, Base::Octal, 22),
        (u64::MAX, Base::Decimal, 20),
        (u64::MAX, Base::Hexadecimal, 16),
        (1 << 63, Base::Binary, 63),
    ];
    for (file_size, base, expected) in cases {
        let labels = compute_layout(file_size, base, 16);
        assert_eq!(labels.address.1, expected);
        assert_eq!(labels.address.0, "address");
        assert!(labels.address.1 >= "address".len());
    }
}

#[test]
fn data_column_width_follows_the_base() {
    for (base, field) in [
        (Base::Binary, 8usize),
        (Base::Octal, 3),
        (Base::Decimal, 3),
        (Base::Hexadecimal, 2),
    ] {
        for row_width in [1usize, 8, 16, 40] {
            let labels = compute_layout(1000, base, row_width);
            assert_eq!(labels.data.1, row_width * (field + 1) - 1);
            assert_eq!(labels.ascii.1, row_width);
            assert_eq!(labels.ascii.0, "ascii");
        }
    }
    assert_eq!(compute_layout(1, Base::Binary, 16).data.0, "binary data");
    assert_eq!(compute_layout(1, Base::Octal, 16).data.0, "octal data");
    assert_eq!(compute_layout(1, Base::Binary, 16).data.1, 143);
    assert_eq!(compute_layout(1, Base::Octal, 16).data.1, 63);
}

#[test]
fn bytes_in_every_base() {
    let bytes = [0u8, 5, 64, 255];
    let binary = render_body(&bytes, Base::Binary, 4, 7, 0);
    assert_eq!(
        binary[0],
        "│0000000│00000000 00000101 01000000 11111111│••@×│"
    );
    let octal = render_body(&bytes, Base::Octal, 4, 7, 0);
    assert_eq!(octal[0], "│0000000│000 005 100 377│••@×│");
    let decimal = render_body(&bytes, Base::Decimal, 4, 7, 0);
    assert_eq!(decimal[0], "│0000000│000 005 064 255│••@×│");
    let hexadecimal = render_body(&bytes, Base::Hexadecimal, 4, 7, 0);
    assert_eq!(hexadecimal[0], "│0000000│00 05 40 ff│••@×│");
}
