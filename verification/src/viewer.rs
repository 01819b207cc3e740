//! The viewer's state apart from geometry and rendering: the open document's
//! text layers, the page cache, the selection, search, jump-to-page and
//! toolbar state, and the decisions that the user's actions make on it.
//!
//! Positions on screen and in page space are floating point and stay with the
//! caller, who passes in what they decide (which character a pointer is over,
//! which characters lie on a clicked line); drag anchors are kept here as the
//! caller's opaque position values `P`, and cached textures as `T`.

use vstd::prelude::*;

use crate::cache::PageCache;
use crate::selection::{
    PageText, all_boxes, all_text, boxes_between, drag_boxes, drag_order, drag_selection, drag_text,
    is_word_char, listed_boxes, listed_selection, listed_text, page_at, page_ref, texts_between,
    whole_selection, word_bounds, append_span,
};
use crate::text::{parse_usize, parsed_usize, trim, trimmed};

verus! {

/// The viewer's state.
pub struct PdfViewer<T, P> {
    /// The text layer of each page of the open document; `None` for a page
    /// that could not be read.
    pub document: Option<Vec<Option<PageText>>>,
    pub total_pages: usize,
    pub current_page: usize,
    pub page_cache: PageCache<T>,
    pub theme_idx: usize,
    /// Where a drag started and where it is now: a page and a position.
    pub drag_start: Option<(usize, P)>,
    pub drag_end: Option<(usize, P)>,
    pub selected_text: String,
    /// (page, character index) of each selected character that has a box.
    pub selected_rects: Vec<(usize, usize)>,
    pub show_search: bool,
    pub search_input: String,
    pub search_query: String,
    /// The page of each search match, in order.
    pub search_match_pages: Vec<usize>,
    pub search_match_count: usize,
    pub search_current_match: usize,
    pub jump_to_match: bool,
    pub show_jump: bool,
    pub jump_input: String,
    pub jump_error: bool,
    pub target_scroll_page: Option<usize>,
    pub current_file_path: Option<String>,
    pub show_toolbar: bool,
    pub toolbar_hover_shown: bool,
    pub show_zoom_input: bool,
    pub zoom_input: String,
}

/// The match after `current` among `count` matches, wrapping to the first.
pub open spec fn next_match(current: int, count: int) -> int {
    (current + 1) % count
}

/// The match before `current` among `count` matches, wrapping to the last.
pub open spec fn prev_match(current: int, count: int) -> int {
    if current == 0 {
        count - 1
    } else {
        current - 1
    }
}

/// Characters `start..=end` are the word around character `i`: all word
/// characters, with no word character just before or just after.
pub open spec fn is_word_span(chars: Seq<crate::selection::CharText>, i: int, start: int, end: int) -> bool {
    &&& 0 <= start <= i <= end < chars.len()
    &&& forall|j: int| start <= j <= end ==> is_word_char(#[trigger] chars[j])
    &&& (start == 0 || !is_word_char(chars[start - 1]))
    &&& (end + 1 == chars.len() || !is_word_char(chars[end + 1]))
}

/// The indices, in order, of the matches before `upto` that lie on page
/// `page`, leaving out match `skip`.
pub open spec fn match_indices_on(pages: Seq<usize>, page: usize, skip: int, upto: int) -> Seq<usize>
    decreases upto,
{
    if upto <= 0 {
        Seq::empty()
    } else {
        let prev = match_indices_on(pages, page, skip, upto - 1);
        if pages[upto - 1] == page && upto - 1 != skip {
            prev.push((upto - 1) as usize)
        } else {
            prev
        }
    }
}

/// The character indices, in order, of the selected boxes before `upto` that
/// lie on page `page`.
pub open spec fn chars_on_page(rects: Seq<(usize, usize)>, page: usize, upto: int) -> Seq<usize>
    decreases upto,
{
    if upto <= 0 {
        Seq::empty()
    } else {
        let prev = chars_on_page(rects, page, upto - 1);
        if rects[upto - 1].0 == page {
            prev.push(rects[upto - 1].1)
        } else {
            prev
        }
    }
}

/// The drag, the selection text and the selected boxes are the same.
pub open spec fn same_selection<T, P>(a: PdfViewer<T, P>, b: PdfViewer<T, P>) -> bool {
    &&& a.drag_start == b.drag_start
    &&& a.drag_end == b.drag_end
    &&& a.selected_text@ == b.selected_text@
    &&& a.selected_rects@ == b.selected_rects@
}

/// The search state is the same.
pub open spec fn same_search<T, P>(a: PdfViewer<T, P>, b: PdfViewer<T, P>) -> bool {
    &&& a.show_search == b.show_search
    &&& a.search_input@ == b.search_input@
    &&& a.search_query@ == b.search_query@
    &&& a.search_match_pages@ == b.search_match_pages@
    &&& a.search_match_count == b.search_match_count
    &&& a.search_current_match == b.search_current_match
    &&& a.jump_to_match == b.jump_to_match
}

/// The jump-to-page state is the same.
pub open spec fn same_jump<T, P>(a: PdfViewer<T, P>, b: PdfViewer<T, P>) -> bool {
    &&& a.show_jump == b.show_jump
    &&& a.jump_input@ == b.jump_input@
    &&& a.jump_error == b.jump_error
    &&& a.target_scroll_page == b.target_scroll_page
}

/// The toolbar state is the same.
pub open spec fn same_toolbar<T, P>(a: PdfViewer<T, P>, b: PdfViewer<T, P>) -> bool {
    &&& a.show_toolbar == b.show_toolbar
    &&& a.toolbar_hover_shown == b.toolbar_hover_shown
    &&& a.show_zoom_input == b.show_zoom_input
    &&& a.zoom_input@ == b.zoom_input@
}

/// The document, its pages, the cache, the theme and the file are the same.
pub open spec fn same_document<T, P>(a: PdfViewer<T, P>, b: PdfViewer<T, P>) -> bool {
    &&& a.document == b.document
    &&& a.total_pages == b.total_pages
    &&& a.current_page == b.current_page
    &&& a.page_cache.pages() == b.page_cache.pages()
    &&& a.page_cache.textures() == b.page_cache.textures()
    &&& a.theme_idx == b.theme_idx
    &&& a.current_file_path == b.current_file_path
}

/// The search results agree with themselves: one page per match, and the
/// current match is one of them when there are any.
pub open spec fn search_consistent<T, P>(a: PdfViewer<T, P>) -> bool {
    &&& a.search_match_count == a.search_match_pages@.len()
    &&& (a.search_match_count > 0 ==> a.search_current_match < a.search_match_count)
}

/// No search results: no matches and the first one current.
pub open spec fn search_results_cleared<T, P>(a: PdfViewer<T, P>) -> bool {
    &&& a.search_match_pages@.len() == 0
    &&& a.search_match_count == 0
    &&& a.search_current_match == 0
}

impl<T, P> PdfViewer<T, P> {
    /// A viewer with no document, the "Warm Dark" theme and the toolbar
    /// shown.
    pub fn new() -> (v: Self)
        ensures
            v.document is None,
            v.total_pages == 0,
            v.current_page == 0,
            v.page_cache.pages().len() == 0,
            v.page_cache.textures() == Map::<usize, T>::empty(),
            v.theme_idx == 2,
            v.drag_start is None,
            v.drag_end is None,
            v.selected_text@.len() == 0,
            v.selected_rects@.len() == 0,
            !v.show_search,
            v.search_input@.len() == 0,
            v.search_query@.len() == 0,
            search_results_cleared(v),
            !v.jump_to_match,
            !v.show_jump,
            v.jump_input@.len() == 0,
            !v.jump_error,
            v.target_scroll_page is None,
            v.current_file_path is None,
            v.show_toolbar,
            !v.toolbar_hover_shown,
            !v.show_zoom_input,
            v.zoom_input@.len() == 0,
            search_consistent(v),
    {
        PdfViewer {
            document: None,
            total_pages: 0,
            current_page: 0,
            page_cache: PageCache::new(),
            theme_idx: 2,
            drag_start: None,
            drag_end: None,
            selected_text: String::new(),
            selected_rects: Vec::new(),
            show_search: false,
            search_input: String::new(),
            search_query: String::new(),
            search_match_pages: Vec::new(),
            search_match_count: 0,
            search_current_match: 0,
            jump_to_match: false,
            show_jump: false,
            jump_input: String::new(),
            jump_error: false,
            target_scroll_page: None,
            current_file_path: None,
            show_toolbar: true,
            toolbar_hover_shown: false,
            show_zoom_input: false,
            zoom_input: String::new(),
        }
    }

    /// Forgets the drag and the selection.
    pub fn clear_selection(&mut self)
        ensures
            final(self).drag_start is None,
            final(self).drag_end is None,
            final(self).selected_text@.len() == 0,
            final(self).selected_rects@.len() == 0,
            same_search(*final(self), *old(self)),
            same_jump(*final(self), *old(self)),
            same_toolbar(*final(self), *old(self)),
            same_document(*final(self), *old(self)),
    {
        self.drag_start = None;
        self.drag_end = None;
        self.selected_text = String::new();
        self.selected_rects = Vec::new();
    }

    /// Takes a newly opened document (the text layer of each of its pages) and
    /// the path it was opened from: the first page becomes current and the
    /// cache, the selection, the search results and the jump state are reset.
    pub fn load_document(&mut self, pages: Vec<Option<PageText>>, path: Option<String>)
        ensures
            final(self).document == Some(pages),
            final(self).total_pages == pages@.len(),
            final(self).current_page == 0,
            final(self).page_cache.pages().len() == 0,
            final(self).page_cache.textures() == Map::<usize, T>::empty(),
            final(self).drag_start is None,
            final(self).drag_end is None,
            final(self).selected_text@.len() == 0,
            final(self).selected_rects@.len() == 0,
            search_results_cleared(*final(self)),
            !final(self).jump_to_match,
            final(self).show_search == old(self).show_search,
            final(self).search_input@ == old(self).search_input@,
            final(self).search_query@ == old(self).search_query@,
            !final(self).show_jump,
            final(self).jump_input@.len() == 0,
            !final(self).jump_error,
            final(self).target_scroll_page is None,
            final(self).current_file_path == path,
            final(self).theme_idx == old(self).theme_idx,
            same_toolbar(*final(self), *old(self)),
            search_consistent(*final(self)),
    {
        self.total_pages = pages.len();
        self.current_page = 0;
        self.document = Some(pages);
        self.page_cache.clear();
        self.clear_selection();
        self.search_match_pages = Vec::new();
        self.search_match_count = 0;
        self.search_current_match = 0;
        self.jump_to_match = false;
        self.show_jump = false;
        self.jump_input = String::new();
        self.jump_error = false;
        self.target_scroll_page = None;
        self.current_file_path = path;
    }

    /// Re-selects from the drag's start to its end. `start_hit` and `end_hit`
    /// are the characters under the drag's start and end on their pages, where
    /// the caller found one. Without a drag or a document nothing changes.
    pub fn update_selection(&mut self, start_hit: Option<usize>, end_hit: Option<usize>)
        ensures
            match (old(self).drag_start, old(self).drag_end, old(self).document) {
                (Some(ds), Some(de), Some(doc)) => {
                    let (top, top_hit, bottom, bottom_hit) = drag_order(ds.0, start_hit, de.0, end_hit);
                    &&& final(self).selected_text@ == drag_text(
                        doc@,
                        top as int,
                        bottom as int,
                        top_hit,
                        bottom_hit,
                        bottom + 1,
                    )
                    &&& final(self).selected_rects@ == drag_boxes(
                        doc@,
                        top as int,
                        bottom as int,
                        top_hit,
                        bottom_hit,
                        bottom + 1,
                    )
                },
                _ => {
                    &&& final(self).selected_text@ == old(self).selected_text@
                    &&& final(self).selected_rects@ == old(self).selected_rects@
                },
            },
            final(self).drag_start == old(self).drag_start,
            final(self).drag_end == old(self).drag_end,
            same_search(*final(self), *old(self)),
            same_jump(*final(self), *old(self)),
            same_toolbar(*final(self), *old(self)),
            same_document(*final(self), *old(self)),
    {
        let (start_page, end_page) = match (&self.drag_start, &self.drag_end) {
            (Some(ds), Some(de)) => (ds.0, de.0),
            _ => {
                return;
            },
        };
        let (text, rects) = match &self.document {
            Some(doc) => drag_selection(doc, start_page, start_hit, end_page, end_hit),
            None => {
                return;
            },
        };
        self.selected_text = text;
        self.selected_rects = rects;
    }

    /// Selects the text of every page. Without a document nothing changes.
    pub fn select_all(&mut self)
        ensures
            match old(self).document {
                Some(doc) => {
                    &&& final(self).drag_start is None
                    &&& final(self).drag_end is None
                    &&& final(self).selected_text@ == all_text(
                        doc@,
                        old(self).total_pages as int,
                        old(self).total_pages as int,
                    )
                    &&& final(self).selected_rects@ == all_boxes(doc@, old(self).total_pages as int)
                },
                None => same_selection(*final(self), *old(self)),
            },
            same_search(*final(self), *old(self)),
            same_jump(*final(self), *old(self)),
            same_toolbar(*final(self), *old(self)),
            same_document(*final(self), *old(self)),
    {
        let (text, rects) = match &self.document {
            Some(doc) => whole_selection(doc, self.total_pages),
            None => {
                return;
            },
        };
        self.clear_selection();
        self.selected_text = text;
        self.selected_rects = rects;
    }

    /// Selects the word around character `hit` of page `page_idx`, where `hit`
    /// is the character the caller found under the pointer. Nothing changes
    /// without a document, a readable page, a character, or when the
    /// character is not part of a word (white space or no text).
    pub fn select_word_at(&mut self, page_idx: usize, hit: Option<usize>)
        requires
            match (old(self).document, hit) {
                (Some(doc), Some(i)) => match page_at(doc@, page_idx as int) {
                    Some(pg) => i < pg.chars@.len(),
                    None => true,
                },
                _ => true,
            },
        ensures
            match (old(self).document, hit) {
                (Some(doc), Some(i)) => match page_at(doc@, page_idx as int) {
                    Some(pg) => if is_word_char(pg.chars@[i as int]) {
                        exists|start: int, end: int| {
                            &&& #[trigger] is_word_span(pg.chars@, i as int, start, end)
                            &&& final(self).selected_text@ == texts_between(pg.chars@, start, end + 1)
                            &&& final(self).selected_rects@ == boxes_between(
                                page_idx,
                                pg.chars@,
                                start,
                                end + 1,
                            )
                        }
                    } else {
                        same_selection(*final(self), *old(self))
                    },
                    None => same_selection(*final(self), *old(self)),
                },
                _ => same_selection(*final(self), *old(self)),
            },
            final(self).drag_start == old(self).drag_start,
            final(self).drag_end == old(self).drag_end,
            same_search(*final(self), *old(self)),
            same_jump(*final(self), *old(self)),
            same_toolbar(*final(self), *old(self)),
            same_document(*final(self), *old(self)),
    {
        let idx = match hit {
            Some(i) => i,
            None => {
                return;
            },
        };
        let (text, rects) = match &self.document {
            Some(doc) => match page_ref(doc, page_idx) {
                Some(pg) => match word_bounds(&pg.chars, idx) {
                    Some((start, end)) => {
                        assert(end < pg.chars.len());
                        let mut text = String::new();
                        let mut rects: Vec<(usize, usize)> = Vec::new();
                        append_span(&mut text, &mut rects, page_idx, &pg.chars, start, end + 1);
                        assert(text@ =~= texts_between(pg.chars@, start as int, end + 1));
                        assert(rects@ =~= boxes_between(page_idx, pg.chars@, start as int, end + 1));
                        assert(is_word_span(pg.chars@, idx as int, start as int, end as int));
                        (text, rects)
                    },
                    None => {
                        return;
                    },
                },
                None => {
                    return;
                },
            },
            None => {
                return;
            },
        };
        self.selected_text = text;
        self.selected_rects = rects;
    }

    /// Selects the characters `line` of page `page_idx` in the order given:
    /// the caller's choice of the characters with boxes on the clicked line,
    /// left to right. Without a document or a readable page nothing changes.
    pub fn select_line_at(&mut self, page_idx: usize, line: &Vec<usize>)
        requires
            match old(self).document {
                Some(doc) => match page_at(doc@, page_idx as int) {
                    Some(pg) => forall|k: int| 0 <= k < line@.len() ==> #[trigger] line@[k] < pg.chars@.len(),
                    None => true,
                },
                None => true,
            },
        ensures
            match old(self).document {
                Some(doc) => match page_at(doc@, page_idx as int) {
                    Some(pg) => {
                        &&& final(self).selected_text@ == listed_text(pg.chars@, line@)
                        &&& final(self).selected_rects@ == listed_boxes(page_idx, line@)
                    },
                    None => same_selection(*final(self), *old(self)),
                },
                None => same_selection(*final(self), *old(self)),
            },
            final(self).drag_start == old(self).drag_start,
            final(self).drag_end == old(self).drag_end,
            same_search(*final(self), *old(self)),
            same_jump(*final(self), *old(self)),
            same_toolbar(*final(self), *old(self)),
            same_document(*final(self), *old(self)),
    {
        let (text, rects) = match &self.document {
            Some(doc) => match page_ref(doc, page_idx) {
                Some(pg) => listed_selection(&pg.chars, page_idx, line),
                None => {
                    return;
                },
            },
            None => {
                return;
            },
        };
        self.selected_text = text;
        self.selected_rects = rects;
    }

    /// Starts a search for `search_query`: the previous results are dropped
    /// and the view is asked to jump to the first match. Returns whether the
    /// pages must be searched, which needs a query and an open document; the
    /// caller then hands the matches to `record_search_matches`.
    pub fn do_search(&mut self) -> (run: bool)
        ensures
            run == (old(self).search_query@.len() > 0 && old(self).document is Some),
            search_results_cleared(*final(self)),
            final(self).jump_to_match,
            final(self).show_search == old(self).show_search,
            final(self).search_input@ == old(self).search_input@,
            final(self).search_query@ == old(self).search_query@,
            same_selection(*final(self), *old(self)),
            same_jump(*final(self), *old(self)),
            same_toolbar(*final(self), *old(self)),
            same_document(*final(self), *old(self)),
            search_consistent(*final(self)),
    {
        self.search_match_pages = Vec::new();
        self.search_match_count = 0;
        self.search_current_match = 0;
        self.jump_to_match = true;
        if self.search_query.as_str().is_empty() {
            return false;
        }
        self.document.is_some()
    }

    /// Takes the page of each match that the search found, in order. When
    /// nothing was found there is no match to jump to.
    pub fn record_search_matches(&mut self, pages: Vec<usize>)
        ensures
            final(self).search_match_pages@ == pages@,
            final(self).search_match_count == pages@.len(),
            final(self).search_current_match == old(self).search_current_match,
            final(self).jump_to_match == (old(self).jump_to_match && pages@.len() > 0),
            final(self).show_search == old(self).show_search,
            final(self).search_input@ == old(self).search_input@,
            final(self).search_query@ == old(self).search_query@,
            same_selection(*final(self), *old(self)),
            same_jump(*final(self), *old(self)),
            same_toolbar(*final(self), *old(self)),
            same_document(*final(self), *old(self)),
            old(self).search_current_match == 0 ==> search_consistent(*final(self)),
    {
        self.search_match_count = pages.len();
        self.search_match_pages = pages;
        if self.search_match_count == 0 {
            self.jump_to_match = false;
        }
    }

    /// Moves to the next match, after the last back to the first, and asks the
    /// view to jump there. Without matches nothing changes.
    pub fn next_search_match(&mut self)
        requires
            old(self).search_match_count > 0 ==> old(self).search_current_match < usize::MAX,
        ensures
            old(self).search_match_count > 0 ==> {
                &&& final(self).search_current_match == next_match(
                    old(self).search_current_match as int,
                    old(self).search_match_count as int,
                )
                &&& final(self).jump_to_match
            },
            old(self).search_match_count == 0 ==> {
                &&& final(self).search_current_match == old(self).search_current_match
                &&& final(self).jump_to_match == old(self).jump_to_match
            },
            final(self).search_match_count == 0 || final(self).search_current_match
                < final(self).search_match_count,
            final(self).search_match_count == old(self).search_match_count,
            final(self).search_match_pages@ == old(self).search_match_pages@,
            final(self).show_search == old(self).show_search,
            final(self).search_input@ == old(self).search_input@,
            final(self).search_query@ == old(self).search_query@,
            same_selection(*final(self), *old(self)),
            same_jump(*final(self), *old(self)),
            same_toolbar(*final(self), *old(self)),
            same_document(*final(self), *old(self)),
            search_consistent(*old(self)) ==> search_consistent(*final(self)),
    {
        if self.search_match_count > 0 {
            self.search_current_match = (self.search_current_match + 1) % self.search_match_count;
            self.jump_to_match = true;
        }
    }

    /// Moves to the previous match, before the first back to the last, and
    /// asks the view to jump there. Without matches nothing changes.
    pub fn prev_search_match(&mut self)
        ensures
            old(self).search_match_count > 0 ==> {
                &&& final(self).search_current_match == prev_match(
                    old(self).search_current_match as int,
                    old(self).search_match_count as int,
                )
                &&& final(self).jump_to_match
            },
            old(self).search_match_count == 0 ==> {
                &&& final(self).search_current_match == old(self).search_current_match
                &&& final(self).jump_to_match == old(self).jump_to_match
            },
            old(self).search_current_match < old(self).search_match_count
                ==> final(self).search_current_match < final(self).search_match_count,
            final(self).search_match_count == old(self).search_match_count,
            final(self).search_match_pages@ == old(self).search_match_pages@,
            final(self).show_search == old(self).show_search,
            final(self).search_input@ == old(self).search_input@,
            final(self).search_query@ == old(self).search_query@,
            same_selection(*final(self), *old(self)),
            same_jump(*final(self), *old(self)),
            same_toolbar(*final(self), *old(self)),
            same_document(*final(self), *old(self)),
            search_consistent(*old(self)) ==> search_consistent(*final(self)),
    {
        if self.search_match_count > 0 {
            if self.search_current_match == 0 {
                self.search_current_match = self.search_match_count - 1;
            } else {
                self.search_current_match = self.search_current_match - 1;
            }
            self.jump_to_match = true;
        }
    }

    /// Shows the search bar, or hides it and drops the results.
    pub fn toggle_search(&mut self)
        ensures
            final(self).show_search == !old(self).show_search,
            !final(self).show_search ==> search_results_cleared(*final(self)),
            final(self).show_search ==> {
                &&& final(self).search_match_pages@ == old(self).search_match_pages@
                &&& final(self).search_match_count == old(self).search_match_count
                &&& final(self).search_current_match == old(self).search_current_match
            },
            final(self).jump_to_match == old(self).jump_to_match,
            final(self).search_input@ == old(self).search_input@,
            final(self).search_query@ == old(self).search_query@,
            same_selection(*final(self), *old(self)),
            same_jump(*final(self), *old(self)),
            same_toolbar(*final(self), *old(self)),
            same_document(*final(self), *old(self)),
            search_consistent(*old(self)) ==> search_consistent(*final(self)),
    {
        self.show_search = !self.show_search;
        if !self.show_search {
            self.search_match_pages = Vec::new();
            self.search_match_count = 0;
            self.search_current_match = 0;
        }
    }

    /// Hides the search bar and drops the results.
    pub fn close_search(&mut self)
        ensures
            !final(self).show_search,
            search_results_cleared(*final(self)),
            final(self).jump_to_match == old(self).jump_to_match,
            final(self).search_input@ == old(self).search_input@,
            final(self).search_query@ == old(self).search_query@,
            same_selection(*final(self), *old(self)),
            same_jump(*final(self), *old(self)),
            same_toolbar(*final(self), *old(self)),
            same_document(*final(self), *old(self)),
            search_consistent(*final(self)),
    {
        self.show_search = false;
        self.search_match_pages = Vec::new();
        self.search_match_count = 0;
        self.search_current_match = 0;
    }

    /// Escape: hides the search bar, dropping its results, and the
    /// jump-to-page field with its error.
    pub fn escape(&mut self)
        ensures
            !final(self).show_search,
            search_results_cleared(*final(self)),
            !final(self).show_jump,
            !final(self).jump_error,
            final(self).jump_to_match == old(self).jump_to_match,
            final(self).search_input@ == old(self).search_input@,
            final(self).search_query@ == old(self).search_query@,
            final(self).jump_input@ == old(self).jump_input@,
            final(self).target_scroll_page == old(self).target_scroll_page,
            same_selection(*final(self), *old(self)),
            same_toolbar(*final(self), *old(self)),
            same_document(*final(self), *old(self)),
            search_consistent(*final(self)),
    {
        self.close_search();
        self.show_jump = false;
        self.jump_error = false;
    }

    /// The search field was edited: its text becomes the query and a search
    /// starts, as `do_search`, whose result is returned.
    pub fn search_input_changed(&mut self) -> (run: bool)
        ensures
            final(self).search_query@ == old(self).search_input@,
            run == (old(self).search_input@.len() > 0 && old(self).document is Some),
            search_results_cleared(*final(self)),
            final(self).jump_to_match,
            final(self).show_search == old(self).show_search,
            final(self).search_input@ == old(self).search_input@,
            same_selection(*final(self), *old(self)),
            same_jump(*final(self), *old(self)),
            same_toolbar(*final(self), *old(self)),
            same_document(*final(self), *old(self)),
            search_consistent(*final(self)),
    {
        self.search_query = self.search_input.clone();
        self.do_search()
    }

    /// The search matches on page `page`, to highlight: the indices of those
    /// that are not current, in order, and the current one when it is there.
    pub fn matches_on_page(&self, page: usize) -> (r: (Vec<usize>, Option<usize>))
        ensures
            r.0@ == match_indices_on(
                self.search_match_pages@,
                page,
                self.search_current_match as int,
                self.search_match_pages@.len() as int,
            ),
            r.1 == (if self.search_current_match < self.search_match_pages@.len()
                && self.search_match_pages@[self.search_current_match as int] == page {
                Some(self.search_current_match)
            } else {
                None
            }),
    {
        let mut others: Vec<usize> = Vec::new();
        let mut active: Option<usize> = None;
        let n = self.search_match_pages.len();
        let mut i: usize = 0;
        while i < n
            invariant
                n == self.search_match_pages@.len(),
                i <= n,
                others@ == match_indices_on(
                    self.search_match_pages@,
                    page,
                    self.search_current_match as int,
                    i as int,
                ),
                active == (if self.search_current_match < i
                    && self.search_match_pages@[self.search_current_match as int] == page {
                    Some(self.search_current_match)
                } else {
                    None
                }),
            decreases n - i,
        {
            if self.search_match_pages[i] == page {
                if i == self.search_current_match {
                    active = Some(i);
                } else {
                    others.push(i);
                }
            }
            i = i + 1;
        }
        (others, active)
    }

    /// The character indices of the selected boxes on page `page`, in order.
    pub fn selected_chars_on(&self, page: usize) -> (r: Vec<usize>)
        ensures
            r@ == chars_on_page(self.selected_rects@, page, self.selected_rects@.len() as int),
    {
        let mut out: Vec<usize> = Vec::new();
        let n = self.selected_rects.len();
        let mut i: usize = 0;
        while i < n
            invariant
                n == self.selected_rects@.len(),
                i <= n,
                out@ == chars_on_page(self.selected_rects@, page, i as int),
            decreases n - i,
        {
            let (pi, ci) = self.selected_rects[i];
            if pi == page {
                out.push(ci);
            }
            i = i + 1;
        }
        out
    }

    /// Whether the view should scroll to match `page` now: the current match
    /// is on `page` and a jump was asked for, which this consumes.
    pub fn take_match_jump(&mut self, page: usize) -> (jump: bool)
        ensures
            jump == ({
                let cur = old(self).search_current_match as int;
                &&& old(self).jump_to_match
                &&& cur < old(self).search_match_pages@.len()
                &&& old(self).search_match_pages@[cur] == page
            }),
            final(self).jump_to_match == (old(self).jump_to_match && !jump),
            final(self).show_search == old(self).show_search,
            final(self).search_input@ == old(self).search_input@,
            final(self).search_query@ == old(self).search_query@,
            final(self).search_match_pages@ == old(self).search_match_pages@,
            final(self).search_match_count == old(self).search_match_count,
            final(self).search_current_match == old(self).search_current_match,
            same_selection(*final(self), *old(self)),
            same_jump(*final(self), *old(self)),
            same_toolbar(*final(self), *old(self)),
            same_document(*final(self), *old(self)),
    {
        if self.jump_to_match && self.search_current_match < self.search_match_pages.len()
            && self.search_match_pages[self.search_current_match] == page {
            self.jump_to_match = false;
            true
        } else {
            false
        }
    }

    /// Opens the jump-to-page field, empty and without error, when the
    /// document has pages; otherwise nothing changes.
    pub fn open_jump(&mut self)
        ensures
            old(self).total_pages > 0 ==> {
                &&& final(self).show_jump
                &&& final(self).jump_input@.len() == 0
                &&& !final(self).jump_error
            },
            old(self).total_pages == 0 ==> {
                &&& final(self).show_jump == old(self).show_jump
                &&& final(self).jump_input@ == old(self).jump_input@
                &&& final(self).jump_error == old(self).jump_error
            },
            final(self).target_scroll_page == old(self).target_scroll_page,
            same_selection(*final(self), *old(self)),
            same_search(*final(self), *old(self)),
            same_toolbar(*final(self), *old(self)),
            same_document(*final(self), *old(self)),
    {
        if self.total_pages > 0 {
            self.show_jump = true;
            self.jump_input = String::new();
            self.jump_error = false;
        }
    }

    /// Closes the jump-to-page field and its error.
    pub fn cancel_jump(&mut self)
        ensures
            !final(self).show_jump,
            !final(self).jump_error,
            final(self).jump_input@ == old(self).jump_input@,
            final(self).target_scroll_page == old(self).target_scroll_page,
            same_selection(*final(self), *old(self)),
            same_search(*final(self), *old(self)),
            same_toolbar(*final(self), *old(self)),
            same_document(*final(self), *old(self)),
    {
        self.show_jump = false;
        self.jump_error = false;
    }

    /// Enter in the jump-to-page field: a page number from 1 to `total_pages`,
    /// around white space, becomes the page to scroll to and closes the field;
    /// anything else shows the error.
    pub fn submit_jump(&mut self)
        ensures
            match parsed_usize(trimmed(old(self).jump_input@)) {
                Some(p) if 1 <= p <= old(self).total_pages => {
                    &&& final(self).target_scroll_page == Some((p - 1) as usize)
                    &&& !final(self).show_jump
                    &&& !final(self).jump_error
                },
                _ => {
                    &&& final(self).jump_error
                    &&& final(self).target_scroll_page == old(self).target_scroll_page
                    &&& final(self).show_jump == old(self).show_jump
                },
            },
            final(self).jump_input@ == old(self).jump_input@,
            same_selection(*final(self), *old(self)),
            same_search(*final(self), *old(self)),
            same_toolbar(*final(self), *old(self)),
            same_document(*final(self), *old(self)),
    {
        match parse_usize(trim(self.jump_input.as_str())) {
            Some(p) => {
                if p > 0 && p <= self.total_pages {
                    self.target_scroll_page = Some(p - 1);
                    self.show_jump = false;
                    self.jump_error = false;
                } else {
                    self.jump_error = true;
                }
            },
            None => {
                self.jump_error = true;
            },
        }
    }

    /// Whether the view should scroll to `page` now, which consumes the
    /// pending jump.
    pub fn take_scroll_target(&mut self, page: usize) -> (scroll: bool)
        ensures
            scroll == (old(self).target_scroll_page == Some(page)),
            scroll ==> final(self).target_scroll_page is None,
            !scroll ==> final(self).target_scroll_page == old(self).target_scroll_page,
            final(self).show_jump == old(self).show_jump,
            final(self).jump_input@ == old(self).jump_input@,
            final(self).jump_error == old(self).jump_error,
            same_selection(*final(self), *old(self)),
            same_search(*final(self), *old(self)),
            same_toolbar(*final(self), *old(self)),
            same_document(*final(self), *old(self)),
    {
        if self.target_scroll_page == Some(page) {
            self.target_scroll_page = None;
            true
        } else {
            false
        }
    }

    /// The text to put on the clipboard for a copy: the selection, when there
    /// is one.
    pub fn text_to_copy(&self) -> (r: Option<String>)
        ensures
            match r {
                Some(t) => t@ == self.selected_text@ && t@.len() > 0,
                None => self.selected_text@.len() == 0,
            },
    {
        if self.selected_text.as_str().is_empty() {
            None
        } else {
            Some(self.selected_text.clone())
        }
    }

    /// Switches to theme `idx`; rendered pages are dropped, since their colours
    /// depend on the theme.
    pub fn select_theme(&mut self, idx: usize)
        ensures
            final(self).theme_idx == idx,
            final(self).page_cache.pages().len() == 0,
            final(self).page_cache.textures() == Map::<usize, T>::empty(),
            final(self).document == old(self).document,
            final(self).total_pages == old(self).total_pages,
            final(self).current_page == old(self).current_page,
            final(self).current_file_path == old(self).current_file_path,
            same_selection(*final(self), *old(self)),
            same_search(*final(self), *old(self)),
            same_jump(*final(self), *old(self)),
            same_toolbar(*final(self), *old(self)),
    {
        self.theme_idx = idx;
        self.page_cache.clear();
    }

    /// Ctrl+H: hides a shown toolbar or shows a hidden one, pinned either way.
    pub fn toggle_toolbar(&mut self)
        ensures
            final(self).show_toolbar == !old(self).show_toolbar,
            !final(self).toolbar_hover_shown,
            final(self).show_zoom_input == old(self).show_zoom_input,
            final(self).zoom_input@ == old(self).zoom_input@,
            same_selection(*final(self), *old(self)),
            same_search(*final(self), *old(self)),
            same_jump(*final(self), *old(self)),
            same_document(*final(self), *old(self)),
    {
        self.show_toolbar = !self.show_toolbar;
        self.toolbar_hover_shown = false;
    }

    /// Shows the toolbar pinned (not only while hovered), as a search or a
    /// page jump needs it.
    pub fn pin_toolbar(&mut self)
        ensures
            final(self).show_toolbar,
            !final(self).toolbar_hover_shown,
            final(self).show_zoom_input == old(self).show_zoom_input,
            final(self).zoom_input@ == old(self).zoom_input@,
            same_selection(*final(self), *old(self)),
            same_search(*final(self), *old(self)),
            same_jump(*final(self), *old(self)),
            same_document(*final(self), *old(self)),
    {
        self.show_toolbar = true;
        self.toolbar_hover_shown = false;
    }

    /// Hides the toolbar.
    pub fn hide_toolbar(&mut self)
        ensures
            !final(self).show_toolbar,
            !final(self).toolbar_hover_shown,
            final(self).show_zoom_input == old(self).show_zoom_input,
            final(self).zoom_input@ == old(self).zoom_input@,
            same_selection(*final(self), *old(self)),
            same_search(*final(self), *old(self)),
            same_jump(*final(self), *old(self)),
            same_document(*final(self), *old(self)),
    {
        self.show_toolbar = false;
        self.toolbar_hover_shown = false;
    }

    /// A hidden toolbar appears while the pointer is at the top edge
    /// (`near_top`); one shown that way hides again once the pointer leaves
    /// the toolbar's band (`in_toolbar`). A pinned toolbar stays.
    pub fn track_toolbar_hover(&mut self, near_top: bool, in_toolbar: bool)
        ensures
            !old(self).show_toolbar ==> {
                &&& final(self).show_toolbar == near_top
                &&& final(self).toolbar_hover_shown == (near_top || old(self).toolbar_hover_shown)
            },
            old(self).show_toolbar && old(self).toolbar_hover_shown ==> {
                &&& final(self).show_toolbar == in_toolbar
                &&& final(self).toolbar_hover_shown == in_toolbar
            },
            old(self).show_toolbar && !old(self).toolbar_hover_shown ==> {
                &&& final(self).show_toolbar
                &&& !final(self).toolbar_hover_shown
            },
            final(self).show_zoom_input == old(self).show_zoom_input,
            final(self).zoom_input@ == old(self).zoom_input@,
            same_selection(*final(self), *old(self)),
            same_search(*final(self), *old(self)),
            same_jump(*final(self), *old(self)),
            same_document(*final(self), *old(self)),
    {
        if !self.show_toolbar {
            if near_top {
                self.show_toolbar = true;
                self.toolbar_hover_shown = true;
            }
        } else if self.toolbar_hover_shown {
            if !in_toolbar {
                self.show_toolbar = false;
                self.toolbar_hover_shown = false;
            }
        }
    }
}

/// Stepping back from the match after `current` returns to `current`, and so
/// does stepping forward from the match before it.
pub proof fn lemma_prev_undoes_next(current: int, count: int)
    requires
        0 <= current < count,
    ensures
        prev_match(next_match(current, count), count) == current,
        next_match(prev_match(current, count), count) == current,
{
    if current + 1 < count {
        vstd::arithmetic::div_mod::lemma_small_mod((current + 1) as nat, count as nat);
    } else {
        vstd::arithmetic::div_mod::lemma_mod_self_0(count);
    }
    if current == 0 {
        vstd::arithmetic::div_mod::lemma_mod_self_0(count);
    } else {
        vstd::arithmetic::div_mod::lemma_small_mod(current as nat, count as nat);
    }
}

/// The match reached from `current` after `steps` moves forward.
pub open spec fn after_next_steps(current: int, count: int, steps: nat) -> int
    decreases steps,
{
    if steps == 0 {
        current
    } else {
        next_match(after_next_steps(current, count, (steps - 1) as nat), count)
    }
}

/// Moving forward through the matches visits them in order, wrapping around:
/// after `steps` moves from `current` the current match is
/// `(current + steps) % count`, so `count` moves come back to where they
/// started.
pub proof fn lemma_next_cycles(current: int, count: int, steps: nat)
    requires
        0 <= current < count,
    ensures
        after_next_steps(current, count, steps) == (current + steps) % count,
        after_next_steps(current, count, count as nat) == current,
{
    lemma_steps_formula(current, count, steps);
    lemma_steps_formula(current, count, count as nat);
    vstd::arithmetic::div_mod::lemma_mod_add_multiples_vanish(current, count);
    vstd::arithmetic::div_mod::lemma_small_mod(current as nat, count as nat);
}

proof fn lemma_steps_formula(current: int, count: int, steps: nat)
    requires
        0 <= current < count,
    ensures
        after_next_steps(current, count, steps) == (current + steps) % count,
    decreases steps,
{
    if steps == 0 {
        vstd::arithmetic::div_mod::lemma_small_mod(current as nat, count as nat);
    } else {
        lemma_steps_formula(current, count, (steps - 1) as nat);
        let x = current + steps - 1;
        vstd::arithmetic::div_mod::lemma_add_mod_noop_right(1, x, count);
        assert((x % count) + 1 == 1 + (x % count));
        assert(1 + x == current + steps);
    }
}

} // verus!
