use ledger_core::text::truncate;

#[test]
fn truncate_keeps_short_strings() {
    assert_eq!(truncate("groceries", 9), "groceries");
    assert_eq!(truncate("", 0), "");
}

#[test]
fn truncate_cuts_long_strings() {
    assert_eq!(truncate("groceries and more", 10), "groceri...");
    assert_eq!(truncate("abcd", 3), "...");
}
