//! Trimming.

use netmon::text::{is_white_space, trim};

#[test]
fn trim_takes_white_space_off_both_ends() {
    assert_eq!(trim("bash\n"), "bash");
    assert_eq!(trim(" \t a b \r\n"), "a b");
    assert_eq!(trim(""), "");
    assert_eq!(trim(" \n "), "");
    assert_eq!(trim("\u{3000}\u{e9}\u{a0}"), "\u{e9}");
}

#[test]
fn white_space_is_that_of_char() {
    let mut n = 0u32;
    while n <= 0x10FFFF {
        if let Some(c) = char::from_u32(n) {
            assert_eq!(is_white_space(c), c.is_whitespace());
        }
        n += 1;
    }
}
