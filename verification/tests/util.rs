use dockui::util::truncate;

#[test]
fn truncate_counts_display_columns() {
    assert_eq!(truncate("hello", 10), "hello");
    assert_eq!(truncate("hello world", 6), "hello…");
    assert_eq!(truncate("abc", 0), "");
    // wide characters take two columns each
    assert_eq!(truncate("日本語テキスト", 7), "日本語…");
    assert_eq!(truncate("日本語", 6), "日本語");
    assert_eq!(truncate("日本語", 5), "日本…");
}
