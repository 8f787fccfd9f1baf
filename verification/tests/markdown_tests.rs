use libs_tools::markdown::{escape, escape_all, shorten, Shorten};

#[test]
fn markup_is_escaped_outside_code() {
    assert_eq!(escape("a_b *c* [d]"), "a\\_b \\*c\\* \\[d\\]");
    assert_eq!(escape("use `a_b` <T>"), "use `a_b` \\<T\\>");
    assert_eq!(escape("x-y\\z"), "x\\-y\\\\z");
    assert_eq!(escape(""), "");
}

#[test]
fn the_minutes_escape_everything() {
    assert_eq!(escape_all("use `a_b`"), "use \\`a\\_b\\`");
    assert_eq!(escape_all("plain"), "plain");
}

#[test]
fn links_are_shortened() {
    assert_eq!(shorten("https://github.com/rust-lang/rust/issues/123", Shorten::Text), "rust.tf/123");
    assert_eq!(shorten("https://github.com/rust-lang/rust/pull/5", Shorten::Href), "rust.tf/5");
    assert_eq!(shorten("https://github.com/rust-lang/rfcs/pull/7", Shorten::Text), "rust.tf/rfc7");
    assert_eq!(shorten("https://github.com/rust-lang/libs-team/issues/9", Shorten::Text), "rust.tf/libs9");
    assert_eq!(shorten("https://github.com/rust-lang/stdarch/pull/2", Shorten::Text), "rust.tf/stdarch2");
    assert_eq!(shorten("https://example.com/x", Shorten::Text), "example.com/x");
    assert_eq!(shorten("ftp://example.com", Shorten::Text), "ftp://example.com");
}

#[test]
fn anchors_are_kept() {
    assert_eq!(
        shorten("https://github.com/rust-lang/rust/issues/1#issuecomment-2", Shorten::Text),
        "[rust.tf/1](https://rust.tf/1#issuecomment-2)"
    );
    assert_eq!(
        shorten("https://github.com/rust-lang/rust/issues/1#issuecomment-2", Shorten::Href),
        "https://rust.tf/1#issuecomment-2"
    );
    assert_eq!(shorten("https://a.b/c#", Shorten::Text), "a.b/c");
}

#[test]
fn code_spans_come_out_untouched() {
    assert_eq!(escape("a_b `x_y*[z]` c-d"), "a\\_b `x_y*[z]` c\\-d");
    assert_eq!(escape("`<T>` and <T>"), "`<T>` and \\<T\\>");
    let a = "x_`y`_";
    let b = "<b>";
    let whole = format!("{a}`co_de`{b}");
    assert_eq!(escape(&whole), format!("{}`co_de`{}", escape(a), escape(b)));
}
