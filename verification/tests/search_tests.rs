use pdf_viewer::search::{find_all, find_all_checked, Hit};

fn pages(texts: &[&str]) -> Vec<String> {
    texts.iter().map(|t| t.to_string()).collect()
}

fn triples(hits: &[Hit]) -> Vec<(usize, usize, usize)> {
    hits.iter().map(|h| (h.page, h.start, h.end)).collect()
}

#[test]
fn find_all_is_case_insensitive_and_ordered() {
    let p = pages(&["Hello hello", "no match", "HELLO"]);
    let hits = find_all(&p, "hello");
    assert_eq!(triples(&hits), vec![(0, 0, 5), (0, 6, 11), (2, 0, 5)]);
}

#[test]
fn find_all_empty_query_finds_nothing() {
    let p = pages(&["anything"]);
    assert!(find_all(&p, "").is_empty());
}

#[test]
fn find_all_reports_overlapping_matches() {
    let p = pages(&["aaaa"]);
    let hits = find_all(&p, "aa");
    assert_eq!(triples(&hits), vec![(0, 0, 2), (0, 1, 3), (0, 2, 4)]);
}

#[test]
fn find_all_positions_are_in_lowercased_text() {
    let p = pages(&["abcABC"]);
    let hits = find_all(&p, "BC");
    assert_eq!(triples(&hits), vec![(0, 1, 3), (0, 4, 6)]);
}

#[test]
fn find_all_end_uses_the_query_length_as_given() {
    // 'İ' lower-cases to "i" followed by a combining dot (3 bytes), while the
    // query "İ" itself is 2 bytes long.
    let p = pages(&["İx"]);
    let hits = find_all(&p, "İ");
    assert_eq!(triples(&hits), vec![(0, 0, 2)]);
}

#[test]
fn find_all_over_no_pages() {
    let p: Vec<String> = Vec::new();
    assert!(find_all(&p, "x").is_empty());
    assert!(find_all_checked(&p, "").map(|h| h.is_empty()).unwrap_or(false));
}

#[test]
fn find_all_checked_agrees_with_find_all() {
    let p = pages(&["One two ONE", "", "twone"]);
    let a = triples(&find_all(&p, "one"));
    let b = triples(&find_all_checked(&p, "one").unwrap());
    assert_eq!(a, b);
    assert_eq!(a, vec![(0, 0, 3), (0, 8, 11), (2, 2, 5)]);
}

#[test]
fn find_all_checked_refuses_multibyte_start_with_a_match() {
    let p = pages(&["straße und ähnlich"]);
    assert!(find_all_checked(&p, "Ä").is_none());
    assert!(find_all_checked(&p, "zz").map(|h| h.is_empty()).unwrap_or(false));
    let hits = find_all_checked(&p, "STRA").unwrap();
    assert_eq!(triples(&hits), vec![(0, 0, 4)]);
}

#[test]
fn find_all_checked_accepts_multibyte_start_without_match() {
    let p = pages(&["plain ascii"]);
    let hits = find_all_checked(&p, "é").unwrap();
    assert!(hits.is_empty());
}

#[test]
fn searching_joined_pages_is_searching_each_part() {
    let a = pages(&["ab ab", "x"]);
    let b = pages(&["AB", "", "aab"]);
    let joined: Vec<String> = a.iter().chain(b.iter()).cloned().collect();
    let whole = triples(&find_all(&joined, "ab"));
    let mut parts = triples(&find_all(&a, "ab"));
    parts.extend(find_all(&b, "ab").iter().map(|h| (h.page + a.len(), h.start, h.end)));
    assert_eq!(whole, parts);
}
