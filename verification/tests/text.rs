use ghostscribe_client::text::{alphanumeric, lowercase};

#[test]
fn lowercase_lowers_ascii_letters_only() {
    assert_eq!(lowercase("Key:CTRL+Shift+G"), "key:ctrl+shift+g");
    assert_eq!(lowercase("F12 _-+"), "f12 _-+");
    assert_eq!(lowercase(""), "");
}

#[test]
fn lowercase_follows_unicode_beyond_ascii() {
    assert_eq!(lowercase("ÉÀ"), "éà");
    assert_eq!(lowercase("ΣΑΣ"), "σας");
}

#[test]
fn alphanumeric_is_letters_and_digits() {
    assert!(alphanumeric('a'));
    assert!(alphanumeric('Z'));
    assert!(alphanumeric('7'));
    assert!(!alphanumeric('_'));
    assert!(!alphanumeric(' '));
    assert!(alphanumeric('é'));
}
