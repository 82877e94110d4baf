use poshgre::text::{is_ascii_whitespace_char, is_control_char, is_whitespace_char, utf8_width_of};

#[test]
fn char_classes_agree_with_std() {
    for u in 0u32..=0x10FFFF {
        if let Some(c) = char::from_u32(u) {
            assert_eq!(is_whitespace_char(c), c.is_whitespace(), "{:x}", u);
            assert_eq!(is_ascii_whitespace_char(c), c.is_ascii_whitespace(), "{:x}", u);
            assert_eq!(is_control_char(c), c.is_control(), "{:x}", u);
            assert_eq!(utf8_width_of(c), c.len_utf8(), "{:x}", u);
        }
    }
}
