use pdf_viewer::selection::{CharText, PageText};
use pdf_viewer::viewer::PdfViewer;

type Viewer = PdfViewer<u32, (i32, i32)>;

fn page(text: &str) -> Option<PageText> {
    Some(PageText {
        chars: text
            .chars()
            .map(|c| CharText { text: Some(c.to_string()), has_bounds: true })
            .collect(),
    })
}

fn loaded(pages: Vec<Option<PageText>>) -> Viewer {
    let mut v = Viewer::new();
    v.load_document(pages, Some("/doc.pdf".to_string()));
    v
}

#[test]
fn new_viewer_defaults() {
    let v = Viewer::new();
    assert!(v.document.is_none());
    assert_eq!(v.theme_idx, 2);
    assert!(v.show_toolbar);
    assert!(!v.show_search);
    assert_eq!(v.search_match_count, 0);
}

#[test]
fn loading_resets_state() {
    let mut v = loaded(vec![page("ab"), None]);
    v.selected_text = "x".to_string();
    v.search_match_count = 4;
    v.target_scroll_page = Some(1);
    v.load_document(vec![page("c")], Some("/other.pdf".to_string()));
    assert_eq!(v.total_pages, 1);
    assert_eq!(v.current_page, 0);
    assert!(v.selected_text.is_empty());
    assert_eq!(v.search_match_count, 0);
    assert_eq!(v.target_scroll_page, None);
    assert_eq!(v.current_file_path.as_deref(), Some("/other.pdf"));
}

#[test]
fn select_all_joins_pages_with_line_breaks() {
    let mut v = loaded(vec![page("ab"), None, page("cd"), page("")]);
    v.drag_start = Some((0, (1, 1)));
    v.select_all();
    assert_eq!(v.selected_text, "ab\ncd\n");
    assert_eq!(v.selected_rects, vec![(0, 0), (0, 1), (2, 0), (2, 1)]);
    assert!(v.drag_start.is_none());
}

#[test]
fn select_all_without_document_changes_nothing() {
    let mut v = Viewer::new();
    v.selected_text = "keep".to_string();
    v.select_all();
    assert_eq!(v.selected_text, "keep");
}

#[test]
fn drag_over_one_page_selects_between_the_ends() {
    let mut v = loaded(vec![page("hello world")]);
    v.drag_start = Some((0, (0, 0)));
    v.drag_end = Some((0, (0, 0)));
    v.update_selection(Some(8), Some(2));
    assert_eq!(v.selected_text, "llo wor");
    assert_eq!(v.selected_rects.len(), 7);
}

#[test]
fn drag_over_pages_selects_to_and_from_page_ends() {
    let mut v = loaded(vec![page("abc"), page("def"), page("ghi")]);
    // dragging upwards, from page 2 to page 0
    v.drag_start = Some((2, (0, 0)));
    v.drag_end = Some((0, (0, 0)));
    v.update_selection(Some(1), Some(2));
    assert_eq!(v.selected_text, "c\ndef\ngh");
    // and downwards gives the same
    let mut w = loaded(vec![page("abc"), page("def"), page("ghi")]);
    w.drag_start = Some((0, (0, 0)));
    w.drag_end = Some((2, (0, 0)));
    w.update_selection(Some(2), Some(1));
    assert_eq!(w.selected_text, v.selected_text);
    assert_eq!(w.selected_rects, v.selected_rects);
}

#[test]
fn drag_end_over_no_character_defaults_to_page_ends() {
    let mut v = loaded(vec![page("abc"), page("def")]);
    v.drag_start = Some((0, (0, 0)));
    v.drag_end = Some((1, (0, 0)));
    v.update_selection(None, None);
    assert_eq!(v.selected_text, "abc\ndef");
}

#[test]
fn drag_without_document_or_end_changes_nothing() {
    let mut v = Viewer::new();
    v.drag_start = Some((0, (0, 0)));
    v.drag_end = Some((0, (0, 0)));
    v.selected_text = "keep".to_string();
    v.update_selection(Some(0), Some(0));
    assert_eq!(v.selected_text, "keep");
    let mut w = loaded(vec![page("abc")]);
    w.drag_start = Some((0, (0, 0)));
    w.update_selection(Some(0), Some(1));
    assert!(w.selected_text.is_empty());
}

#[test]
fn chars_without_text_or_box() {
    let mut v = loaded(vec![Some(PageText {
        chars: vec![
            CharText { text: Some("a".to_string()), has_bounds: false },
            CharText { text: None, has_bounds: true },
            CharText { text: Some("b".to_string()), has_bounds: true },
        ],
    })]);
    v.select_all();
    assert_eq!(v.selected_text, "ab");
    assert_eq!(v.selected_rects, vec![(0, 1), (0, 2)]);
}

#[test]
fn double_click_selects_the_word() {
    let mut v = loaded(vec![page("one two\tthree")]);
    v.select_word_at(0, Some(5));
    assert_eq!(v.selected_text, "two");
    assert_eq!(v.selected_rects, vec![(0, 4), (0, 5), (0, 6)]);
    v.select_word_at(0, Some(12));
    assert_eq!(v.selected_text, "three");
    v.select_word_at(0, Some(0));
    assert_eq!(v.selected_text, "one");
}

#[test]
fn double_click_on_white_space_changes_nothing() {
    let mut v = loaded(vec![page("one two")]);
    v.selected_text = "keep".to_string();
    v.select_word_at(0, Some(3));
    assert_eq!(v.selected_text, "keep");
    v.select_word_at(0, None);
    assert_eq!(v.selected_text, "keep");
    v.select_word_at(5, Some(0));
    assert_eq!(v.selected_text, "keep");
}

#[test]
fn triple_click_selects_the_given_line_order() {
    let mut v = loaded(vec![page("xyz")]);
    v.select_line_at(0, &vec![2, 0, 1]);
    assert_eq!(v.selected_text, "zxy");
    assert_eq!(v.selected_rects, vec![(0, 2), (0, 0), (0, 1)]);
}

#[test]
fn clear_selection_forgets_everything() {
    let mut v = loaded(vec![page("abc")]);
    v.select_all();
    v.drag_start = Some((0, (1, 2)));
    v.clear_selection();
    assert!(v.selected_text.is_empty());
    assert!(v.selected_rects.is_empty());
    assert!(v.drag_start.is_none() && v.drag_end.is_none());
}

#[test]
fn copy_only_with_a_selection() {
    let mut v = loaded(vec![page("abc")]);
    assert_eq!(v.text_to_copy(), None);
    v.select_all();
    assert_eq!(v.text_to_copy().as_deref(), Some("abc"));
}

#[test]
fn search_needs_query_and_document() {
    let mut v = Viewer::new();
    v.search_query = "x".to_string();
    assert!(!v.do_search());
    assert!(v.jump_to_match);
    let mut w = loaded(vec![page("a")]);
    assert!(!w.do_search());
    w.search_input = "a".to_string();
    assert!(w.search_input_changed());
    assert_eq!(w.search_query, "a");
}

#[test]
fn recorded_matches_and_navigation_wrap_around() {
    let mut v = loaded(vec![page("aa"), page("a")]);
    v.search_query = "a".to_string();
    assert!(v.do_search());
    v.record_search_matches(vec![0, 0, 1]);
    assert_eq!(v.search_match_count, 3);
    assert_eq!(v.search_current_match, 0);
    assert!(v.jump_to_match);
    v.next_search_match();
    v.next_search_match();
    assert_eq!(v.search_current_match, 2);
    v.next_search_match();
    assert_eq!(v.search_current_match, 0);
    v.prev_search_match();
    assert_eq!(v.search_current_match, 2);
    // stepping back undoes stepping forward
    v.next_search_match();
    v.prev_search_match();
    assert_eq!(v.search_current_match, 2);
}

#[test]
fn going_round_all_matches_returns_to_the_start() {
    let mut v = loaded(vec![page("a")]);
    v.search_query = "a".to_string();
    v.do_search();
    v.record_search_matches(vec![0, 0, 0, 0, 0]);
    v.next_search_match();
    v.next_search_match();
    let start = v.search_current_match;
    for _ in 0..5 {
        v.next_search_match();
    }
    assert_eq!(v.search_current_match, start);
}

#[test]
fn no_matches_means_no_jump_and_no_moves() {
    let mut v = loaded(vec![page("a")]);
    v.search_query = "q".to_string();
    v.do_search();
    v.record_search_matches(Vec::new());
    assert!(!v.jump_to_match);
    v.next_search_match();
    v.prev_search_match();
    assert_eq!(v.search_current_match, 0);
    assert!(!v.jump_to_match);
}

#[test]
fn jump_to_match_is_taken_on_its_page_once() {
    let mut v = loaded(vec![page("a"), page("a")]);
    v.search_query = "a".to_string();
    v.do_search();
    v.record_search_matches(vec![1]);
    assert!(!v.take_match_jump(0));
    assert!(v.take_match_jump(1));
    assert!(!v.take_match_jump(1));
}

#[test]
fn search_toggle_and_escape() {
    let mut v = loaded(vec![page("a")]);
    v.toggle_search();
    assert!(v.show_search);
    v.search_query = "a".to_string();
    v.do_search();
    v.record_search_matches(vec![0]);
    v.toggle_search();
    assert!(!v.show_search);
    assert_eq!(v.search_match_count, 0);
    v.open_jump();
    v.jump_error = true;
    v.toggle_search();
    v.escape();
    assert!(!v.show_search && !v.show_jump && !v.jump_error);
}

#[test]
fn jump_to_page_accepts_numbers_in_range() {
    let mut v = loaded(vec![page("a"), page("b"), page("c")]);
    v.open_jump();
    assert!(v.show_jump && v.jump_input.is_empty());
    v.jump_input = "  3 ".to_string();
    v.submit_jump();
    assert_eq!(v.target_scroll_page, Some(2));
    assert!(!v.show_jump && !v.jump_error);
    assert!(!v.take_scroll_target(1));
    assert!(v.take_scroll_target(2));
    assert_eq!(v.target_scroll_page, None);

    v.open_jump();
    v.jump_input = "+1".to_string();
    v.submit_jump();
    assert_eq!(v.target_scroll_page, Some(0));
}

#[test]
fn jump_to_page_rejects_bad_input() {
    let mut v = loaded(vec![page("a"), page("b")]);
    for bad in ["0", "3", "abc", "", "-1", "1.5", "1 2"] {
        v.open_jump();
        v.jump_input = bad.to_string();
        v.submit_jump();
        assert!(v.jump_error, "{:?}", bad);
        assert!(v.show_jump);
        assert_eq!(v.target_scroll_page, None);
    }
    v.cancel_jump();
    assert!(!v.show_jump && !v.jump_error);
}

#[test]
fn theme_selection_drops_rendered_pages() {
    let mut v = loaded(vec![page("a")]);
    v.page_cache.insert(0, 7);
    v.select_theme(4);
    assert_eq!(v.theme_idx, 4);
    assert_eq!(v.page_cache.len(), 0);
}

#[test]
fn toolbar_toggle_pin_and_hover() {
    let mut v = Viewer::new();
    v.toggle_toolbar();
    assert!(!v.show_toolbar);
    v.track_toolbar_hover(false, false);
    assert!(!v.show_toolbar);
    v.track_toolbar_hover(true, true);
    assert!(v.show_toolbar && v.toolbar_hover_shown);
    v.track_toolbar_hover(false, true);
    assert!(v.show_toolbar);
    v.track_toolbar_hover(false, false);
    assert!(!v.show_toolbar && !v.toolbar_hover_shown);
    v.pin_toolbar();
    v.track_toolbar_hover(false, false);
    assert!(v.show_toolbar && !v.toolbar_hover_shown);
    v.hide_toolbar();
    assert!(!v.show_toolbar);
}

#[test]
fn matches_on_a_page_with_the_current_one_apart() {
    let mut v = loaded(vec![page("a"), page("a")]);
    v.search_query = "a".to_string();
    v.do_search();
    v.record_search_matches(vec![0, 1, 0, 1, 1]);
    v.next_search_match();
    let (others, active) = v.matches_on_page(1);
    assert_eq!(others, vec![3, 4]);
    assert_eq!(active, Some(1));
    let (others, active) = v.matches_on_page(0);
    assert_eq!(others, vec![0, 2]);
    assert_eq!(active, None);
}

#[test]
fn selected_characters_of_a_page() {
    let mut v = loaded(vec![page("ab"), page("cd")]);
    v.select_all();
    assert_eq!(v.selected_chars_on(1), vec![0, 1]);
    assert_eq!(v.selected_chars_on(5), Vec::<usize>::new());
}

#[test]
fn jump_field_needs_pages() {
    let mut v = Viewer::new();
    v.open_jump();
    assert!(!v.show_jump);
}

#[test]
fn triple_click_without_document_or_page_changes_nothing() {
    let mut v = Viewer::new();
    v.selected_text = "keep".to_string();
    v.select_line_at(0, &vec![0]);
    assert_eq!(v.selected_text, "keep");
    let mut w = loaded(vec![None]);
    w.selected_text = "keep".to_string();
    w.select_line_at(0, &vec![3]);
    w.select_line_at(4, &vec![3]);
    assert_eq!(w.selected_text, "keep");
}

#[test]
fn jump_input_trims_unicode_white_space() {
    let mut v = loaded(vec![page("a"), page("b")]);
    v.open_jump();
    v.jump_input = "\u{3000}2\t".to_string();
    v.submit_jump();
    assert_eq!(v.target_scroll_page, Some(1));
}

#[test]
fn drag_direction_on_one_page_with_both_ends_found() {
    let mut v = loaded(vec![page("abcdef")]);
    v.drag_start = Some((0, (0, 0)));
    v.drag_end = Some((0, (0, 0)));
    v.update_selection(Some(4), Some(1));
    let forward = v.selected_text.clone();
    v.update_selection(Some(1), Some(4));
    assert_eq!(v.selected_text, forward);
    assert_eq!(forward, "bcde");
}
