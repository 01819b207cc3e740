use pdf_viewer::bookmarks::{bookmark_value, second_field_of, updated_bookmarks};

#[test]
fn saving_replaces_the_line_of_the_same_document() {
    let old = "/a.pdf|10\n/b.pdf|20\n/a.pdf|30";
    let new = updated_bookmarks(old, "/a.pdf", "42.5");
    assert_eq!(new, "/b.pdf|20\n/a.pdf|42.5");
}

#[test]
fn saving_into_an_empty_file() {
    assert_eq!(updated_bookmarks("", "/x.pdf", "0"), "/x.pdf|0");
}

#[test]
fn saving_drops_every_line_starting_with_the_path() {
    // a longer path that starts with the same text is dropped too
    let old = "/a.pdf.bak|5\r\n/c.pdf|1\n";
    assert_eq!(updated_bookmarks(old, "/a.pdf", "7"), "/c.pdf|1\n/a.pdf|7");
}

#[test]
fn reading_back_what_was_saved() {
    let saved = updated_bookmarks("/b.pdf|20\n/a.pdf|1", "/a.pdf", "123.25");
    assert_eq!(bookmark_value(&saved, "/a.pdf").as_deref(), Some("123.25"));
    assert_eq!(bookmark_value(&saved, "/b.pdf").as_deref(), Some("20"));
}

#[test]
fn reading_the_first_matching_line_and_second_field() {
    let contents = "/x|1|2\n/x|9";
    assert_eq!(bookmark_value(contents, "/x").as_deref(), Some("1"));
    assert_eq!(bookmark_value(contents, "/y"), None);
    assert_eq!(bookmark_value("/x no bar\n/x|3", "/x"), None);
    assert_eq!(bookmark_value("/x|", "/x").as_deref(), Some(""));
}

#[test]
fn second_field_cases() {
    let f = |s: &str| second_field_of(&s.chars().collect::<Vec<char>>());
    assert_eq!(f("a|b|c").as_deref(), Some("b"));
    assert_eq!(f("a|b").as_deref(), Some("b"));
    assert_eq!(f("ab"), None);
    assert_eq!(f("|").as_deref(), Some(""));
}

#[test]
fn line_endings_follow_str_lines() {
    // a carriage return before a line feed ends the line; a final bare one stays
    assert_eq!(bookmark_value("/x|5\r\n/y|6", "/x").as_deref(), Some("5"));
    assert_eq!(bookmark_value("/y|6\n/x|5\r", "/x").as_deref(), Some("5\r"));
    assert_eq!(updated_bookmarks("/y|6\r\n\r\n", "/x", "1"), "/y|6\n\n/x|1");
}
