//! Text selection over the pages' text layers: which characters a selection
//! covers, the text it copies and the characters whose boxes it highlights.

use vstd::prelude::*;

use crate::text::{is_white_space, lemma_trimmed_empty, push_char, push_str, trim, trimmed};

verus! {

/// One character of a page's text layer: its text, where the page gives one,
/// and whether the page gives its bounding box.
pub struct CharText {
    pub text: Option<String>,
    pub has_bounds: bool,
}

/// The text layer of one page, in the page's own character order.
pub struct PageText {
    pub chars: Vec<CharText>,
}

/// The text a character contributes to a selection.
pub open spec fn char_text(c: CharText) -> Seq<char> {
    match c.text {
        Some(s) => s@,
        None => Seq::empty(),
    }
}

/// The text of characters `lo..hi`, in order.
pub open spec fn texts_between(chars: Seq<CharText>, lo: int, hi: int) -> Seq<char>
    decreases hi - lo,
{
    if hi <= lo {
        Seq::empty()
    } else {
        texts_between(chars, lo, hi - 1) + char_text(chars[hi - 1])
    }
}

/// (`page`, index) of each character of `lo..hi` that has a bounding box, in order.
pub open spec fn boxes_between(page: usize, chars: Seq<CharText>, lo: int, hi: int) -> Seq<(usize, usize)>
    decreases hi - lo,
{
    if hi <= lo {
        Seq::empty()
    } else if chars[hi - 1].has_bounds {
        boxes_between(page, chars, lo, hi - 1).push((page, (hi - 1) as usize))
    } else {
        boxes_between(page, chars, lo, hi - 1)
    }
}

/// Appends the text and the boxes of characters `lo..hi` of page `page`.
pub fn append_span(
    text: &mut String,
    boxes: &mut Vec<(usize, usize)>,
    page: usize,
    chars: &Vec<CharText>,
    lo: usize,
    hi: usize,
)
    requires
        lo <= hi <= chars@.len(),
    ensures
        final(text)@ == old(text)@ + texts_between(chars@, lo as int, hi as int),
        final(boxes)@ == old(boxes)@ + boxes_between(page, chars@, lo as int, hi as int),
{
    let ghost text0 = text@;
    let ghost boxes0 = boxes@;
    let mut i = lo;
    while i < hi
        invariant
            lo <= i <= hi <= chars@.len(),
            text@ == text0 + texts_between(chars@, lo as int, i as int),
            boxes@ == boxes0 + boxes_between(page, chars@, lo as int, i as int),
        decreases hi - i,
    {
        let c = &chars[i];
        match &c.text {
            Some(s) => push_str(text, s.as_str()),
            None => {},
        }
        if c.has_bounds {
            boxes.push((page, i));
        }
        assert(text@ =~= text0 + texts_between(chars@, lo as int, i + 1));
        assert(boxes@ =~= boxes0 + boxes_between(page, chars@, lo as int, i + 1));
        i = i + 1;
    }
}

/// A character that belongs to a word: it has text, and the text is not all
/// white space.
pub open spec fn is_word_char(c: CharText) -> bool {
    match c.text {
        Some(s) => trimmed(s@).len() > 0,
        None => false,
    }
}

/// Whether `c` separates words: it has no text, or its text is all white
/// space (spaces, tabs, line feeds, carriage returns and the other Unicode
/// white space).
pub fn is_boundary(c: &CharText) -> (b: bool)
    ensures
        b == !is_word_char(*c),
        b == (c.text is None || forall|i: int|
            0 <= i < c.text->0@.len() ==> is_white_space(#[trigger] c.text->0@[i])),
{
    proof {
        lemma_word_char(*c);
    }
    match &c.text {
        Some(s) => trim(s.as_str()).is_empty(),
        None => true,
    }
}

/// A character belongs to a word exactly when it has text and some character
/// of that text is not white space; so a line feed, a carriage return, a tab
/// or a space on its own always separates words.
pub proof fn lemma_word_char(c: CharText)
    ensures
        is_word_char(c) <==> (c.text is Some && exists|i: int|
            0 <= i < c.text->0@.len() && !is_white_space(#[trigger] c.text->0@[i])),
{
    match c.text {
        Some(s) => {
            lemma_trimmed_empty(s@);
        },
        None => {},
    }
}

/// The word around character `idx`: the longest run of word characters that
/// contains it, as an inclusive range; `None` when `idx` is not a word
/// character.
pub fn word_bounds(chars: &Vec<CharText>, idx: usize) -> (r: Option<(usize, usize)>)
    requires
        idx < chars@.len(),
    ensures
        r is None <==> !is_word_char(chars@[idx as int]),
        r matches Some((start, end)) ==> {
            &&& start <= idx <= end < chars@.len()
            &&& forall|i: int| start <= i <= end ==> is_word_char(#[trigger] chars@[i])
            &&& start == 0 || !is_word_char(chars@[start - 1])
            &&& end + 1 == chars@.len() || !is_word_char(chars@[end + 1])
        },
{
    if is_boundary(&chars[idx]) {
        return None;
    }
    let mut start = idx;
    while start > 0 && !is_boundary(&chars[start - 1])
        invariant
            start <= idx < chars@.len(),
            forall|i: int| start <= i <= idx ==> is_word_char(#[trigger] chars@[i]),
        decreases start,
    {
        start = start - 1;
    }
    let mut end = idx;
    let len = chars.len();
    while end + 1 < len && !is_boundary(&chars[end + 1])
        invariant
            len == chars@.len(),
            idx <= end < len,
            forall|i: int| idx <= i <= end ==> is_word_char(#[trigger] chars@[i]),
        decreases len - end,
    {
        end = end + 1;
    }
    Some((start, end))
}

/// The page `p` of a document's text layers; `None` where the page could not
/// be read or lies past the last page.
pub open spec fn page_at(doc: Seq<Option<PageText>>, p: int) -> Option<PageText> {
    if 0 <= p < doc.len() {
        doc[p]
    } else {
        None
    }
}

/// The page's text layer by index, as `page_at`.
pub fn page_ref(doc: &Vec<Option<PageText>>, p: usize) -> (r: Option<&PageText>)
    ensures
        match page_at(doc@, p as int) {
            Some(pg) => r == Some(&pg),
            None => r is None,
        },
{
    if p < doc.len() {
        match &doc[p] {
            Some(pg) => Some(pg),
            None => None,
        }
    } else {
        None
    }
}

/// The last character index of a page of `len` characters (0 when empty).
pub open spec fn last_index(len: int) -> int {
    if len > 0 {
        len - 1
    } else {
        0
    }
}

/// The character under a drag end, or `default` when there is none.
pub open spec fn hit_or(hit: Option<usize>, default: int) -> int {
    match hit {
        Some(i) => i as int,
        None => default,
    }
}

/// The inclusive range of characters that a drag from page `top` to page
/// `bottom` (`top <= bottom`) selects on page `page` of `len` characters:
/// from the character under the top end to the end of its page, whole pages
/// in between, and up to the character under the bottom end; on a single page
/// the characters between the two ends.
pub open spec fn span_on_page(
    top: int,
    bottom: int,
    page: int,
    len: int,
    top_hit: Option<usize>,
    bottom_hit: Option<usize>,
) -> (int, int) {
    if top == bottom {
        let i1 = hit_or(top_hit, 0);
        let i2 = hit_or(bottom_hit, last_index(len));
        if i1 <= i2 {
            (i1, i2)
        } else {
            (i2, i1)
        }
    } else if page == top {
        (hit_or(top_hit, 0), last_index(len))
    } else if page == bottom {
        (0, hit_or(bottom_hit, last_index(len)))
    } else {
        (0, last_index(len))
    }
}

/// One past the last selected character, kept inside the page.
pub open spec fn clip_end(last: int, len: int) -> int {
    if last + 1 < len {
        last + 1
    } else {
        len
    }
}

/// The text that a drag from page `top` to page `bottom` selects on the pages
/// before `upto`: each readable page with characters contributes its span,
/// followed by a line break unless it is the bottom page.
pub open spec fn drag_text(
    doc: Seq<Option<PageText>>,
    top: int,
    bottom: int,
    top_hit: Option<usize>,
    bottom_hit: Option<usize>,
    upto: int,
) -> Seq<char>
    decreases upto - top,
{
    if upto <= top {
        Seq::empty()
    } else {
        let p = upto - 1;
        let prev = drag_text(doc, top, bottom, top_hit, bottom_hit, p);
        match page_at(doc, p) {
            Some(pg) => if pg.chars@.len() == 0 {
                prev
            } else {
                let len = pg.chars@.len() as int;
                let span = span_on_page(top, bottom, p, len, top_hit, bottom_hit);
                prev + texts_between(pg.chars@, span.0, clip_end(span.1, len)) + (if p < bottom {
                    seq!['\n']
                } else {
                    Seq::empty()
                })
            },
            None => prev,
        }
    }
}

/// The boxes that a drag from page `top` to page `bottom` selects on the pages
/// before `upto`, as `drag_text`.
pub open spec fn drag_boxes(
    doc: Seq<Option<PageText>>,
    top: int,
    bottom: int,
    top_hit: Option<usize>,
    bottom_hit: Option<usize>,
    upto: int,
) -> Seq<(usize, usize)>
    decreases upto - top,
{
    if upto <= top {
        Seq::empty()
    } else {
        let p = upto - 1;
        let prev = drag_boxes(doc, top, bottom, top_hit, bottom_hit, p);
        match page_at(doc, p) {
            Some(pg) => if pg.chars@.len() == 0 {
                prev
            } else {
                let len = pg.chars@.len() as int;
                let span = span_on_page(top, bottom, p, len, top_hit, bottom_hit);
                prev + boxes_between(p as usize, pg.chars@, span.0, clip_end(span.1, len))
            },
            None => prev,
        }
    }
}

/// The ends of a drag put in page order: (top page, its hit, bottom page, its
/// hit). Ends on one page keep their order.
pub open spec fn drag_order(
    start_page: usize,
    start_hit: Option<usize>,
    end_page: usize,
    end_hit: Option<usize>,
) -> (usize, Option<usize>, usize, Option<usize>) {
    if start_page > end_page {
        (end_page, end_hit, start_page, start_hit)
    } else {
        (start_page, start_hit, end_page, end_hit)
    }
}

fn span_on_page_exec(
    top: usize,
    bottom: usize,
    page: usize,
    len: usize,
    top_hit: Option<usize>,
    bottom_hit: Option<usize>,
) -> (r: (usize, usize))
    ensures
        r.0 as int == span_on_page(top as int, bottom as int, page as int, len as int, top_hit, bottom_hit).0,
        r.1 as int == span_on_page(top as int, bottom as int, page as int, len as int, top_hit, bottom_hit).1,
{
    let last = if len > 0 { len - 1 } else { 0 };
    if top == bottom {
        let i1 = match top_hit { Some(i) => i, None => 0 };
        let i2 = match bottom_hit { Some(i) => i, None => last };
        if i1 <= i2 { (i1, i2) } else { (i2, i1) }
    } else if page == top {
        (match top_hit { Some(i) => i, None => 0 }, last)
    } else if page == bottom {
        (0, match bottom_hit { Some(i) => i, None => last })
    } else {
        (0, last)
    }
}

/// The text and boxes selected by a drag from (`start_page`, `start_hit`) to
/// (`end_page`, `end_hit`), where a hit is the character under that end.
pub fn drag_selection(
    doc: &Vec<Option<PageText>>,
    start_page: usize,
    start_hit: Option<usize>,
    end_page: usize,
    end_hit: Option<usize>,
) -> (r: (String, Vec<(usize, usize)>))
    ensures
        ({
            let (top, top_hit, bottom, bottom_hit) = drag_order(start_page, start_hit, end_page, end_hit);
            &&& r.0@ == drag_text(doc@, top as int, bottom as int, top_hit, bottom_hit, bottom + 1)
            &&& r.1@ == drag_boxes(doc@, top as int, bottom as int, top_hit, bottom_hit, bottom + 1)
        }),
        ({
            let (top, top_hit, bottom, bottom_hit) = drag_order(start_page, start_hit, end_page, end_hit);
            &&& forall|k: int|
                0 <= k < r.1@.len() ==> in_drag(
                    doc@,
                    top as int,
                    bottom as int,
                    top_hit,
                    bottom_hit,
                    #[trigger] r.1@[k],
                )
            &&& forall|j: int, k: int| 0 <= j < k < r.1@.len() ==> box_before(#[trigger] r.1@[j], #[trigger] r.1@[k])
            &&& forall|b: (usize, usize)|
                in_drag(doc@, top as int, bottom as int, top_hit, bottom_hit, b) ==> #[trigger] r.1@.contains(b)
        }),
{
    let (top, top_hit, bottom, bottom_hit) = if start_page > end_page {
        (end_page, end_hit, start_page, start_hit)
    } else {
        (start_page, start_hit, end_page, end_hit)
    };
    let mut text = String::new();
    let mut boxes: Vec<(usize, usize)> = Vec::new();
    let mut p = top;
    loop
        invariant_except_break
            text@ == drag_text(doc@, top as int, bottom as int, top_hit, bottom_hit, p as int),
            boxes@ == drag_boxes(doc@, top as int, bottom as int, top_hit, bottom_hit, p as int),
        invariant
            top <= p <= bottom,
        ensures
            text@ == drag_text(doc@, top as int, bottom as int, top_hit, bottom_hit, bottom + 1),
            boxes@ == drag_boxes(doc@, top as int, bottom as int, top_hit, bottom_hit, bottom + 1),
        decreases bottom - p,
    {
        let ghost text0 = text@;
        let ghost boxes0 = boxes@;
        match page_ref(doc, p) {
            Some(pg) => {
                let len = pg.chars.len();
                if len > 0 {
                    let (lo, last) = span_on_page_exec(top, bottom, p, len, top_hit, bottom_hit);
                    let hi = if last < len - 1 { last + 1 } else { len };
                    if lo < hi {
                        append_span(&mut text, &mut boxes, p, &pg.chars, lo, hi);
                    } else {
                        assert(texts_between(pg.chars@, lo as int, hi as int) =~= Seq::empty());
                        assert(boxes_between(p, pg.chars@, lo as int, hi as int) =~= Seq::empty());
                    }
                    if p < bottom {
                        push_char(&mut text, '\n');
                    }
                    assert(text@ =~= drag_text(doc@, top as int, bottom as int, top_hit, bottom_hit, p + 1));
                    assert(boxes@ =~= drag_boxes(doc@, top as int, bottom as int, top_hit, bottom_hit, p + 1));
                }
            },
            None => {},
        }
        if p == bottom {
            break;
        }
        p = p + 1;
    }
    proof {
        lemma_drag_boxes(doc@, top, bottom, top_hit, bottom_hit, bottom + 1);
    }
    (text, boxes)
}

/// The text of every readable page, each followed by a line break except the
/// last of the `total` pages, over the pages before `upto`.
pub open spec fn all_text(doc: Seq<Option<PageText>>, total: int, upto: int) -> Seq<char>
    decreases upto,
{
    if upto <= 0 {
        Seq::empty()
    } else {
        let p = upto - 1;
        let prev = all_text(doc, total, p);
        match page_at(doc, p) {
            Some(pg) => prev + texts_between(pg.chars@, 0, pg.chars@.len() as int) + (if p < total - 1 {
                seq!['\n']
            } else {
                Seq::empty()
            }),
            None => prev,
        }
    }
}

/// The boxes of every character that has one, over the pages before `upto`.
pub open spec fn all_boxes(doc: Seq<Option<PageText>>, upto: int) -> Seq<(usize, usize)>
    decreases upto,
{
    if upto <= 0 {
        Seq::empty()
    } else {
        let p = upto - 1;
        let prev = all_boxes(doc, p);
        match page_at(doc, p) {
            Some(pg) => prev + boxes_between(p as usize, pg.chars@, 0, pg.chars@.len() as int),
            None => prev,
        }
    }
}

/// The text and boxes of the whole document of `total` pages.
pub fn whole_selection(doc: &Vec<Option<PageText>>, total: usize) -> (r: (String, Vec<(usize, usize)>))
    ensures
        r.0@ == all_text(doc@, total as int, total as int),
        r.1@ == all_boxes(doc@, total as int),
{
    let mut text = String::new();
    let mut boxes: Vec<(usize, usize)> = Vec::new();
    let mut p: usize = 0;
    while p < total
        invariant
            p <= total,
            text@ == all_text(doc@, total as int, p as int),
            boxes@ == all_boxes(doc@, p as int),
        decreases total - p,
    {
        match page_ref(doc, p) {
            Some(pg) => {
                append_span(&mut text, &mut boxes, p, &pg.chars, 0, pg.chars.len());
                if p < total - 1 {
                    push_char(&mut text, '\n');
                }
                assert(text@ =~= all_text(doc@, total as int, p + 1));
                assert(boxes@ =~= all_boxes(doc@, p + 1));
            },
            None => {},
        }
        p = p + 1;
    }
    (text, boxes)
}

/// The boxes of characters `lo..hi` of a page: each names that page and a
/// character of the range that has a bounding box, every such character has
/// its box there, and they come in character order.
pub proof fn lemma_boxes_between(page: usize, chars: Seq<CharText>, lo: int, hi: int)
    requires
        0 <= lo,
        hi <= usize::MAX + 1,
    ensures
        forall|k: int|
            0 <= k < boxes_between(page, chars, lo, hi).len() ==> {
                let b = #[trigger] boxes_between(page, chars, lo, hi)[k];
                &&& b.0 == page
                &&& lo <= b.1 < hi
                &&& chars[b.1 as int].has_bounds
            },
        forall|j: int, k: int|
            0 <= j < k < boxes_between(page, chars, lo, hi).len() ==> (#[trigger] boxes_between(
                page,
                chars,
                lo,
                hi,
            )[j]).1 < (#[trigger] boxes_between(page, chars, lo, hi)[k]).1,
        forall|i: usize|
            lo <= i < hi && chars[i as int].has_bounds ==> #[trigger] boxes_between(page, chars, lo, hi).contains(
                (page, i),
            ),
    decreases hi - lo,
{
    if hi > lo {
        lemma_boxes_between(page, chars, lo, hi - 1);
        let prev = boxes_between(page, chars, lo, hi - 1);
        let r = boxes_between(page, chars, lo, hi);
        assert forall|i: usize| lo <= i < hi && chars[i as int].has_bounds implies #[trigger] r.contains(
            (page, i),
        ) by {
            if i == hi - 1 {
                assert(r[r.len() - 1] == (page, i));
            } else {
                assert(prev.contains((page, i)));
                let j = choose|j: int| 0 <= j < prev.len() && prev[j] == (page, i);
                assert(r[j] == (page, i));
            }
        }
    }
}

/// Box `b` lies on a page of the drag from page `top` to page `bottom`, within
/// the characters that the drag selects on that page, on a character that has
/// a bounding box.
pub open spec fn in_drag(
    doc: Seq<Option<PageText>>,
    top: int,
    bottom: int,
    top_hit: Option<usize>,
    bottom_hit: Option<usize>,
    b: (usize, usize),
) -> bool {
    &&& top <= b.0 <= bottom
    &&& match page_at(doc, b.0 as int) {
        Some(pg) => {
            let len = pg.chars@.len() as int;
            let span = span_on_page(top, bottom, b.0 as int, len, top_hit, bottom_hit);
            &&& span.0 <= b.1 < clip_end(span.1, len)
            &&& pg.chars@[b.1 as int].has_bounds
        },
        None => false,
    }
}

/// `a` comes before `b` in page order, then in character order.
pub open spec fn box_before(a: (usize, usize), b: (usize, usize)) -> bool {
    a.0 < b.0 || (a.0 == b.0 && a.1 < b.1)
}

/// The boxes that a drag highlights on the pages before `upto` are exactly the
/// boxes of the selected characters of those pages, each tagged with the page
/// its character is on, in page order and then character order.
pub proof fn lemma_drag_boxes(
    doc: Seq<Option<PageText>>,
    top: usize,
    bottom: usize,
    top_hit: Option<usize>,
    bottom_hit: Option<usize>,
    upto: int,
)
    requires
        upto <= bottom + 1,
    ensures
        forall|k: int|
            0 <= k < drag_boxes(doc, top as int, bottom as int, top_hit, bottom_hit, upto).len() ==> {
                let b = #[trigger] drag_boxes(doc, top as int, bottom as int, top_hit, bottom_hit, upto)[k];
                &&& in_drag(doc, top as int, bottom as int, top_hit, bottom_hit, b)
                &&& b.0 < upto
            },
        forall|j: int, k: int|
            0 <= j < k < drag_boxes(doc, top as int, bottom as int, top_hit, bottom_hit, upto).len()
                ==> box_before(
                #[trigger] drag_boxes(doc, top as int, bottom as int, top_hit, bottom_hit, upto)[j],
                #[trigger] drag_boxes(doc, top as int, bottom as int, top_hit, bottom_hit, upto)[k],
            ),
        forall|b: (usize, usize)|
            in_drag(doc, top as int, bottom as int, top_hit, bottom_hit, b) && b.0 < upto
                ==> #[trigger] drag_boxes(doc, top as int, bottom as int, top_hit, bottom_hit, upto).contains(b),
    decreases upto - top,
{
    if upto > top {
        let p = upto - 1;
        lemma_drag_boxes(doc, top, bottom, top_hit, bottom_hit, p);
        let prev = drag_boxes(doc, top as int, bottom as int, top_hit, bottom_hit, p);
        let r = drag_boxes(doc, top as int, bottom as int, top_hit, bottom_hit, upto);
        match page_at(doc, p) {
            Some(pg) => {
                if pg.chars@.len() == 0 {
                    assert(r == prev);
                    assert forall|b: (usize, usize)|
                        in_drag(doc, top as int, bottom as int, top_hit, bottom_hit, b) && b.0 < upto
                            implies #[trigger] r.contains(b) by {
                        if b.0 == p {
                            assert(page_at(doc, b.0 as int) == Some(pg));
                        }
                    }
                } else {
                    let len = pg.chars@.len() as int;
                    assert(pg.chars.len() == pg.chars@.len());
                    let span = span_on_page(top as int, bottom as int, p, len, top_hit, bottom_hit);
                    let lo = span.0;
                    let hi = clip_end(span.1, len);
                    let page = p as usize;
                    assert(page as int == p);
                    lemma_boxes_between(page, pg.chars@, lo, hi);
                    let new = boxes_between(page, pg.chars@, lo, hi);
                    assert(r == prev + new);
                    assert forall|k: int| 0 <= k < r.len() implies {
                        let b = #[trigger] r[k];
                        &&& in_drag(doc, top as int, bottom as int, top_hit, bottom_hit, b)
                        &&& b.0 < upto
                    } by {
                        if k < prev.len() {
                            assert(r[k] == prev[k]);
                        } else {
                            assert(r[k] == new[k - prev.len()]);
                        }
                    }
                    assert forall|j: int, k: int| 0 <= j < k < r.len() implies box_before(
                        #[trigger] r[j],
                        #[trigger] r[k],
                    ) by {
                        if k < prev.len() {
                            assert(r[j] == prev[j] && r[k] == prev[k]);
                        } else if j < prev.len() {
                            assert(r[j] == prev[j]);
                            assert(r[k] == new[k - prev.len()]);
                        } else {
                            assert(r[j] == new[j - prev.len()]);
                            assert(r[k] == new[k - prev.len()]);
                        }
                    }
                    assert forall|b: (usize, usize)|
                        in_drag(doc, top as int, bottom as int, top_hit, bottom_hit, b) && b.0 < upto
                            implies #[trigger] r.contains(b) by {
                        if b.0 < p {
                            assert(prev.contains(b));
                            let j = choose|j: int| 0 <= j < prev.len() && prev[j] == b;
                            assert(r[j] == b);
                        } else {
                            assert(b.0 == page);
                            assert(page_at(doc, b.0 as int) == Some(pg));
                            assert(new.contains((page, b.1)));
                            let j = choose|j: int| 0 <= j < new.len() && new[j] == (page, b.1);
                            assert(r[prev.len() + j] == b);
                        }
                    }
                }
            },
            None => {
                assert(r == prev);
                assert forall|b: (usize, usize)|
                    in_drag(doc, top as int, bottom as int, top_hit, bottom_hit, b) && b.0 < upto
                        implies #[trigger] r.contains(b) by {
                    if b.0 == p {
                        assert(page_at(doc, b.0 as int) is None);
                    }
                }
            },
        }
    }
}

/// The text of a line selection is the whole text of each listed character,
/// white space included: one character gives exactly its text.
pub proof fn lemma_listed_text_single(chars: Seq<CharText>, i: usize)
    ensures
        listed_text(chars, seq![i]) == (match chars[i as int].text {
            Some(s) => s@,
            None => Seq::<char>::empty(),
        }),
{
    assert(seq![i].drop_last() =~= Seq::<usize>::empty());
    assert(listed_text(chars, Seq::<usize>::empty()) == Seq::<char>::empty());
    assert(Seq::<char>::empty() + char_text(chars[i as int]) =~= char_text(chars[i as int]));
}

/// Listing characters one list after another gives their texts one after
/// the other.
pub proof fn lemma_listed_text_concat(chars: Seq<CharText>, line1: Seq<usize>, line2: Seq<usize>)
    ensures
        listed_text(chars, line1 + line2) == listed_text(chars, line1) + listed_text(chars, line2),
    decreases line2.len(),
{
    if line2.len() == 0 {
        assert(line1 + line2 =~= line1);
        assert(listed_text(chars, line1) + Seq::<char>::empty() =~= listed_text(chars, line1));
    } else {
        lemma_listed_text_concat(chars, line1, line2.drop_last());
        assert((line1 + line2).drop_last() =~= line1 + line2.drop_last());
        assert((line1 + line2).last() == line2.last());
        let a = listed_text(chars, line1);
        let b = listed_text(chars, line2.drop_last());
        let c = char_text(chars[line2.last() as int]);
        assert(a + b + c =~= a + (b + c));
    }
}

/// The text and boxes of characters `line` of page `page`, in the order given.
pub open spec fn listed_text(chars: Seq<CharText>, line: Seq<usize>) -> Seq<char>
    decreases line.len(),
{
    if line.len() == 0 {
        Seq::empty()
    } else {
        listed_text(chars, line.drop_last()) + char_text(chars[line.last() as int])
    }
}

/// (`page`, index) for each of `line`.
pub open spec fn listed_boxes(page: usize, line: Seq<usize>) -> Seq<(usize, usize)> {
    line.map_values(|i: usize| (page, i))
}

/// The text of the characters `line` of a page, in the order given, and a box
/// for each.
pub fn listed_selection(chars: &Vec<CharText>, page: usize, line: &Vec<usize>) -> (r: (String, Vec<(usize, usize)>))
    requires
        forall|k: int| 0 <= k < line@.len() ==> #[trigger] line@[k] < chars@.len(),
    ensures
        r.0@ == listed_text(chars@, line@),
        r.1@ == listed_boxes(page, line@),
{
    let mut text = String::new();
    let mut boxes: Vec<(usize, usize)> = Vec::new();
    let mut k: usize = 0;
    while k < line.len()
        invariant
            k <= line@.len(),
            forall|j: int| 0 <= j < line@.len() ==> #[trigger] line@[j] < chars@.len(),
            text@ == listed_text(chars@, line@.subrange(0, k as int)),
            boxes@ == listed_boxes(page, line@.subrange(0, k as int)),
        decreases line@.len() - k,
    {
        let i = line[k];
        match &chars[i].text {
            Some(s) => push_str(&mut text, s.as_str()),
            None => {},
        }
        boxes.push((page, i));
        assert(line@.subrange(0, k + 1).drop_last() =~= line@.subrange(0, k as int));
        assert(text@ =~= listed_text(chars@, line@.subrange(0, k + 1)));
        assert(boxes@ =~= listed_boxes(page, line@.subrange(0, k + 1)));
        k = k + 1;
    }
    assert(line@.subrange(0, line@.len() as int) =~= line@);
    (text, boxes)
}

/// A page of the document that can be read and has characters.
pub open spec fn has_chars(doc: Seq<Option<PageText>>, p: int) -> bool {
    match page_at(doc, p) {
        Some(pg) => pg.chars@.len() > 0,
        None => false,
    }
}

/// Dragging from one end to the other or back the other way selects the same
/// text and boxes, whenever a page with characters has a character under each
/// end that lies on it. That is always so where the ends' characters come
/// from the nearest-character search, which finds one on any page with
/// characters. (On one page an end over no character would fall back to the
/// page's first character at the drag's start and its last at the drag's
/// end, and there the direction could matter.)
pub proof fn lemma_drag_direction(
    doc: Seq<Option<PageText>>,
    start_page: usize,
    start_hit: Option<usize>,
    end_page: usize,
    end_hit: Option<usize>,
)
    requires
        has_chars(doc, start_page as int) ==> start_hit is Some,
        has_chars(doc, end_page as int) ==> end_hit is Some,
    ensures
        ({
            let (t1, th1, b1, bh1) = drag_order(start_page, start_hit, end_page, end_hit);
            let (t2, th2, b2, bh2) = drag_order(end_page, end_hit, start_page, start_hit);
            &&& drag_text(doc, t1 as int, b1 as int, th1, bh1, b1 + 1) == drag_text(
                doc,
                t2 as int,
                b2 as int,
                th2,
                bh2,
                b2 + 1,
            )
            &&& drag_boxes(doc, t1 as int, b1 as int, th1, bh1, b1 + 1) == drag_boxes(
                doc,
                t2 as int,
                b2 as int,
                th2,
                bh2,
                b2 + 1,
            )
        }),
{
    if start_page == end_page {
        let p = start_page as int;
        match page_at(doc, p) {
            Some(pg) => {
                let len = pg.chars@.len() as int;
                assert(span_on_page(p, p, p, len, start_hit, end_hit) == span_on_page(
                    p,
                    p,
                    p,
                    len,
                    end_hit,
                    start_hit,
                ));
            },
            None => {},
        }
        assert(drag_text(doc, p, p, start_hit, end_hit, p) =~= Seq::empty());
        assert(drag_text(doc, p, p, end_hit, start_hit, p) =~= Seq::empty());
        assert(drag_boxes(doc, p, p, start_hit, end_hit, p) =~= Seq::empty());
        assert(drag_boxes(doc, p, p, end_hit, start_hit, p) =~= Seq::empty());
    }
}

} // verus!
