use hookpop::text::{is_whitespace_char, to_ascii_upper_char};

#[test]
fn whitespace_agrees_with_std_on_every_char() {
    for u in 0u32..=0x10FFFF {
        if let Some(c) = char::from_u32(u) {
            assert_eq!(is_whitespace_char(c), c.is_whitespace(), "U+{u:04X}");
        }
    }
}

#[test]
fn ascii_upper_agrees_with_std_on_every_char() {
    for u in 0u32..=0x10FFFF {
        if let Some(c) = char::from_u32(u) {
            assert_eq!(to_ascii_upper_char(c), c.to_ascii_uppercase(), "U+{u:04X}");
        }
    }
}
