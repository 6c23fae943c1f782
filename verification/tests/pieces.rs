use louis::constant::{NON_ASCII_CHARACTER, NON_PRINTABLE_CHARACTER};
use louis::numeral::{ceil_log_of, count_digits, digit, push_digits, push_zero_padded};
use louis::text::{push_centered, push_left_aligned, push_repeated, same_text};
use louis::utils::itoa;

fn padded(value: u64, radix: u64, width: usize) -> String {
    let mut out = String::from(">");
    push_zero_padded(&mut out, value, radix, width);
    out
}

#[test]
fn glyph_of_every_byte() {
    for byte in 0..=255u8 {
        let expected = if !byte.is_ascii() {
            '×'
        } else if byte.is_ascii_punctuation() || byte.is_ascii_alphanumeric() {
            byte as char
        } else {
            '•'
        };
        assert_eq!(itoa(byte), expected);
        assert_eq!(itoa(byte), itoa(byte));
    }
}

#[test]
fn glyph_is_one_of_three() {
    let mut own = 0;
    let mut unprintable = 0;
    let mut beyond = 0;
    for byte in 0..=255u8 {
        let glyph = itoa(byte);
        if byte >= 0x80 {
            assert_eq!(glyph, NON_ASCII_CHARACTER);
            beyond += 1;
        } else if (0x21..=0x7e).contains(&byte) {
            assert_eq!(glyph, byte as char);
            assert_ne!(glyph, NON_PRINTABLE_CHARACTER);
            assert_ne!(glyph, NON_ASCII_CHARACTER);
            own += 1;
        } else {
            assert_eq!(glyph, NON_PRINTABLE_CHARACTER);
            unprintable += 1;
        }
    }
    assert_eq!((own, unprintable, beyond), (94, 34, 128));
    assert_ne!(NON_PRINTABLE_CHARACTER, NON_ASCII_CHARACTER);
}

#[test]
fn glyphs_at_the_edges() {
    assert_eq!(itoa(0x00), '•');
    assert_eq!(itoa(0x0a), '•');
    assert_eq!(itoa(0x20), '•');
    assert_eq!(itoa(0x21), '!');
    assert_eq!(itoa(0x2f), '/');
    assert_eq!(itoa(0x30), '0');
    assert_eq!(itoa(0x41), 'A');
    assert_eq!(itoa(0x7a), 'z');
    assert_eq!(itoa(0x7e), '~');
    assert_eq!(itoa(0x7f), '•');
    assert_eq!(itoa(0x80), '×');
    assert_eq!(itoa(0xd7), '×');
    assert_eq!(itoa(0xff), '×');
}

#[test]
fn digits_are_lower_case() {
    let all: String = (0..16u8).map(digit).collect();
    assert_eq!(all, "0123456789abcdef");
}

#[test]
fn numbers_like_the_standard_library_writes_them() {
    for value in (0..=1025u64).chain([u64::MAX - 1, u64::MAX, 1 << 32, 0xdead_beef]) {
        for width in [0usize, 1, 2, 3, 7, 8, 12, 70] {
            assert_eq!(padded(value, 2, width), format!(">{:0w$b}", value, w = width));
            assert_eq!(padded(value, 8, width), format!(">{:0w$o}", value, w = width));
            assert_eq!(padded(value, 10, width), format!(">{:0w$}", value, w = width));
            assert_eq!(padded(value, 16, width), format!(">{:0w$x}", value, w = width));
        }
    }
}

#[test]
fn numbers_in_other_radixes() {
    assert_eq!(padded(0, 3, 0), ">0");
    assert_eq!(padded(26, 3, 0), ">222");
    assert_eq!(padded(27, 3, 5), ">01000");
    assert_eq!(padded(12 * 12 + 11, 12, 1), ">10b");
}

#[test]
fn digits_without_leading_zeros() {
    let mut out = String::from("n=");
    push_digits(&mut out, 0, 10);
    push_digits(&mut out, 255, 16);
    push_digits(&mut out, 8, 8);
    assert_eq!(out, "n=0ff10");
}

#[test]
fn digit_counts() {
    assert_eq!(count_digits(0, 2), 1);
    assert_eq!(count_digits(1, 2), 1);
    assert_eq!(count_digits(255, 2), 8);
    assert_eq!(count_digits(256, 2), 9);
    assert_eq!(count_digits(255, 8), 3);
    assert_eq!(count_digits(999, 10), 3);
    assert_eq!(count_digits(1000, 10), 4);
    assert_eq!(count_digits(255, 16), 2);
    assert_eq!(count_digits(u64::MAX, 2), 64);
    assert_eq!(count_digits(u64::MAX, 16), 16);
    assert_eq!(count_digits(u64::MAX, 10), 20);
}

#[test]
fn logarithms_rounded_up() {
    for radix in [2u64, 8, 10, 16] {
        assert_eq!(ceil_log_of(0, radix), 0);
        assert_eq!(ceil_log_of(1, radix), 0);
        assert_eq!(ceil_log_of(2, radix), 1);
        assert_eq!(ceil_log_of(radix, radix), 1);
        assert_eq!(ceil_log_of(radix + 1, radix), 2);
        assert_eq!(ceil_log_of(radix * radix, radix), 2);
        assert_eq!(ceil_log_of(radix * radix + 1, radix), 3);
    }
    assert_eq!(ceil_log_of(1000, 10), 3);
    assert_eq!(ceil_log_of(1001, 10), 4);
    assert_eq!(ceil_log_of(4, 16), 1);
    assert_eq!(ceil_log_of(u64::MAX, 2), 64);
    assert_eq!(ceil_log_of(1 << 63, 2), 63);
    assert_eq!(ceil_log_of((1 << 63) + 1, 2), 64);
    assert_eq!(ceil_log_of(u64::MAX, 16), 16);
    assert_eq!(ceil_log_of(u64::MAX, 10), 20);
    assert_eq!(ceil_log_of(u64::MAX, u64::MAX), 1);
}

#[test]
fn logarithm_is_the_least_exponent() {
    for radix in [2u128, 8, 10, 16] {
        for n in 0..5000u64 {
            let k = ceil_log_of(n, radix as u64) as u32;
            assert!(radix.pow(k) >= n as u128);
            if k > 0 {
                assert!(radix.pow(k - 1) < n as u128);
            }
        }
    }
}

#[test]
fn logarithm_counts_the_digits_of_the_last_address() {
    for radix in [2u64, 8, 10, 16] {
        for n in 2..5000u64 {
            assert_eq!(ceil_log_of(n, radix), count_digits(n - 1, radix));
        }
    }
}

#[test]
fn repeated_characters() {
    let mut out = String::from("a");
    push_repeated(&mut out, '─', 3);
    push_repeated(&mut out, 'x', 0);
    push_repeated(&mut out, ' ', 2);
    assert_eq!(out, "a───  ");
}

#[test]
fn left_aligned_cells() {
    let mut out = String::from("[");
    push_left_aligned(&mut out, "ab", 4);
    out.push('|');
    push_left_aligned(&mut out, "abcd", 4);
    out.push('|');
    push_left_aligned(&mut out, "abcdef", 4);
    out.push('|');
    push_left_aligned(&mut out, "×•", 3);
    out.push('|');
    push_left_aligned(&mut out, "", 0);
    assert_eq!(out, "[ab  |abcd|abcdef|×• |");
    assert_eq!(out, format!("[{:<4}|{:<4}|{:<4}|{:<3}|{:<0}", "ab", "abcd", "abcdef", "×•", ""));
}

#[test]
fn centered_cells() {
    let mut out = String::from("[");
    push_centered(&mut out, "ab", 4);
    out.push('|');
    push_centered(&mut out, "ab", 5);
    out.push('|');
    push_centered(&mut out, "abc", 4);
    out.push('|');
    push_centered(&mut out, "abcdef", 4);
    out.push('|');
    push_centered(&mut out, "×", 4);
    assert_eq!(out, "[ ab | ab  |abc |abcdef| ×  ");
    assert_eq!(
        out,
        format!("[{:^4}|{:^5}|{:^4}|{:^4}|{:^4}", "ab", "ab", "abc", "abcdef", "×")
    );
}

#[test]
fn texts_compared() {
    assert!(same_text("", ""));
    assert!(same_text("hex", "hex"));
    assert!(same_text("×•│", "×•│"));
    assert!(!same_text("hex", "hey"));
    assert!(!same_text("hex", "he"));
    assert!(!same_text("he", "hex"));
    assert!(!same_text("", "h"));
    assert!(!same_text("Hex", "hex"));
    assert!(!same_text("××", "×"));
}
