use aportal::i18n::{no_texts, t};

/// t() must return the key itself when the table is empty (English fallback)
#[test]
fn empty_table_falls_back_to_key() {
    assert_eq!(t(&no_texts(), "some_key"), "some_key");
}
