//! Case-insensitive search over the text of a document's pages.
//!
//! Positions are byte offsets into the lower-cased text of a page, as the
//! viewer's callers expect.

use vstd::prelude::*;
use vstd::utf8::encode_utf8;

use crate::text::{lowercased, to_lowercase};

verus! {

/// One occurrence of the query: the page, and the byte range it covers.
#[derive(Clone, Copy, Debug)]
pub struct Hit {
    pub page: usize,
    pub start: usize,
    pub end: usize,
}

/// `pat` occurs in `text` at byte offset `i`.
pub open spec fn occurs_at(text: Seq<u8>, pat: Seq<u8>, i: int) -> bool {
    &&& 0 <= i
    &&& i + pat.len() <= text.len()
    &&& text.subrange(i, i + pat.len()) == pat
}

/// `pat` occurs on page `page` of `pages` at byte offset `start`.
pub open spec fn is_match(pages: Seq<Seq<u8>>, pat: Seq<u8>, page: int, start: int) -> bool {
    &&& 0 <= page < pages.len()
    &&& occurs_at(pages[page], pat, start)
}

/// `a` comes strictly before `b` in reading order.
pub open spec fn hit_before(a: Hit, b: Hit) -> bool {
    a.page < b.page || (a.page == b.page && a.start < b.start)
}

/// `hits` lists every occurrence of `pat` in `pages`, each once, in reading
/// order, each ending `query_len` bytes after its start.
pub open spec fn lists_all_matches(
    hits: Seq<Hit>,
    pages: Seq<Seq<u8>>,
    pat: Seq<u8>,
    query_len: int,
) -> bool {
    &&& forall|k: int|
        0 <= k < hits.len() ==> {
            &&& is_match(pages, pat, #[trigger] hits[k].page as int, hits[k].start as int)
            &&& hits[k].end == hits[k].start + query_len
        }
    &&& forall|j: int, k: int| 0 <= j < k < hits.len() ==> hit_before(#[trigger] hits[j], #[trigger] hits[k])
    &&& forall|page: int, start: int|
        #[trigger] is_match(pages, pat, page, start) ==> exists|k: int|
            0 <= k < hits.len() && #[trigger] hits[k].page == page && hits[k].start == start
}

/// The search cannot go on past a match: it restarts one byte after each match,
/// which lands inside a character when the pattern starts with a multi-byte
/// one, and an empty pattern never stops matching.
pub open spec fn search_fails(pages: Seq<Seq<u8>>, pat: Seq<u8>) -> bool {
    ||| pat.len() == 0 && pages.len() > 0
    ||| pat.len() > 0 && pat[0] >= 0x80 && exists|page: int, start: int| is_match(pages, pat, page, start)
}

/// Every page's length plus the query's fits in a `usize`.
pub open spec fn ends_fit(pages: Seq<Seq<u8>>, query_len: int) -> bool {
    forall|i: int| 0 <= i < pages.len() ==> #[trigger] pages[i].len() + query_len <= usize::MAX
}

/// The UTF-8 bytes of each page.
pub open spec fn page_bytes(pages: Seq<String>) -> Seq<Seq<u8>> {
    pages.map_values(|p: String| encode_utf8(p@))
}

/// The UTF-8 bytes of each page after lower-casing.
pub open spec fn lowered_bytes(pages: Seq<String>) -> Seq<Seq<u8>> {
    pages.map_values(|p: String| encode_utf8(lowercased(p@)))
}

/// The first offset at or after `from` where `pat` occurs in `text`.
pub fn first_occurrence(text: &[u8], pat: &[u8], from: usize) -> (r: Option<usize>)
    ensures
        match r {
            Some(i) => {
                &&& from <= i
                &&& occurs_at(text@, pat@, i as int)
                &&& forall|j: int| from <= j < i ==> !occurs_at(text@, pat@, j)
            },
            None => forall|j: int| from <= j ==> !occurs_at(text@, pat@, j),
        },
{
    if pat.len() > text.len() {
        return None;
    }
    let last = text.len() - pat.len();
    assert(text@.len() == text.len());
    if from > last {
        return None;
    }
    let mut i = from;
    loop
        invariant
            pat@.len() <= text@.len(),
            text@.len() <= usize::MAX,
            last == text@.len() - pat@.len(),
            from <= i <= last,
            forall|j: int| from <= j < i ==> !occurs_at(text@, pat@, j),
        decreases last - i,
    {
        let mut k: usize = 0;
        let mut same = true;
        while k < pat.len()
            invariant
                pat@.len() <= text@.len(),
                text@.len() <= usize::MAX,
                i <= last,
                last == text@.len() - pat@.len(),
                k <= pat@.len(),
                same == (forall|m: int| 0 <= m < k ==> text@[i + m] == pat@[m]),
            decreases pat@.len() - k,
        {
            if text[i + k] != pat[k] {
                same = false;
            }
            k = k + 1;
        }
        if same {
            assert(text@.subrange(i as int, i + pat@.len()) =~= pat@);
            return Some(i);
        }
        assert(!(text@.subrange(i as int, i + pat@.len()) =~= pat@)) by {
            let m = choose|m: int| 0 <= m < pat@.len() && text@[i + m] != pat@[m];
            assert(text@.subrange(i as int, i + pat@.len())[m] != pat@[m]);
        }
        if i == last {
            return None;
        }
        i = i + 1;
    }
}


/// Every occurrence of `pattern` in the (already lower-cased) `pages`, in
/// reading order, each reported as ending `query_len` bytes after its start.
/// After each match the search resumes one byte further on, so overlapping
/// occurrences are all found.
pub fn find_all_lowered(pages: &[String], pattern: &str, query_len: usize) -> (hits: Vec<Hit>)
    requires
        !search_fails(page_bytes(pages@), encode_utf8(pattern@)),
        ends_fit(page_bytes(pages@), query_len as int),
    ensures
        lists_all_matches(hits@, page_bytes(pages@), encode_utf8(pattern@), query_len as int),
{
    let ghost all = page_bytes(pages@);
    let pat = pattern.as_bytes();
    let mut hits: Vec<Hit> = Vec::new();
    let n = pages.len();
    let mut page: usize = 0;
    while page < n
        invariant
            n == pages@.len(),
            all == page_bytes(pages@),
            pat@ == encode_utf8(pattern@),
            page <= n,
            n > 0 ==> pat@.len() > 0,
            ends_fit(all, query_len as int),
            forall|k: int|
                0 <= k < hits@.len() ==> {
                    &&& is_match(all, pat@, #[trigger] hits@[k].page as int, hits@[k].start as int)
                    &&& hits@[k].end == hits@[k].start + query_len
                    &&& hits@[k].page < page
                },
            forall|j: int, k: int|
                0 <= j < k < hits@.len() ==> hit_before(#[trigger] hits@[j], #[trigger] hits@[k]),
            forall|p: int, st: int|
                #[trigger] is_match(all, pat@, p, st) && p < page ==> exists|k: int|
                    0 <= k < hits@.len() && #[trigger] hits@[k].page == p && hits@[k].start == st,
        decreases n - page,
    {
        let text = pages[page].as_str().as_bytes();
        assert(text@ == all[page as int]);
        let mut offset: usize = 0;
        loop
            invariant
                n == pages@.len(),
                all == page_bytes(pages@),
                pat@ == encode_utf8(pattern@),
                page < n,
                pat@.len() > 0,
                text@ == all[page as int],
                offset <= text@.len(),
                ends_fit(all, query_len as int),
                forall|k: int|
                    0 <= k < hits@.len() ==> {
                        &&& is_match(all, pat@, #[trigger] hits@[k].page as int, hits@[k].start as int)
                        &&& hits@[k].end == hits@[k].start + query_len
                        &&& (hits@[k].page < page || (hits@[k].page == page && hits@[k].start < offset))
                    },
                forall|j: int, k: int|
                    0 <= j < k < hits@.len() ==> hit_before(#[trigger] hits@[j], #[trigger] hits@[k]),
                forall|p: int, st: int|
                    #[trigger] is_match(all, pat@, p, st) && (p < page || (p == page && st < offset))
                        ==> exists|k: int|
                        0 <= k < hits@.len() && #[trigger] hits@[k].page == p && hits@[k].start == st,
            ensures
                forall|p: int, st: int|
                    #[trigger] is_match(all, pat@, p, st) && p < page + 1 ==> exists|k: int|
                        0 <= k < hits@.len() && #[trigger] hits@[k].page == p && hits@[k].start == st,
            decreases text@.len() - offset,
        {
            match first_occurrence(text, pat, offset) {
                Some(start) => {
                    assert(all[page as int].len() + query_len <= usize::MAX);
                    let hit = Hit { page, start, end: start + query_len };
                    let ghost before = hits@;
                    hits.push(hit);
                    assert forall|p: int, st: int|
                        #[trigger] is_match(all, pat@, p, st) && (p < page || (p == page && st < start + 1))
                            implies exists|k: int|
                            0 <= k < hits@.len() && #[trigger] hits@[k].page == p && hits@[k].start == st by {
                        if p == page && st >= offset {
                            if st < start {
                                assert(!occurs_at(text@, pat@, st));
                            } else {
                                assert(hits@[before.len() as int].page == p);
                            }
                        } else {
                            let k = choose|k: int|
                                0 <= k < before.len() && #[trigger] before[k].page == p && before[k].start == st;
                            assert(hits@[k] == before[k]);
                        }
                    }
                    offset = start + 1;
                },
                None => {
                    assert forall|p: int, st: int|
                        #[trigger] is_match(all, pat@, p, st) && p < page + 1 implies exists|k: int|
                            0 <= k < hits@.len() && #[trigger] hits@[k].page == p && hits@[k].start == st by {
                        if p == page && st >= offset {
                            assert(!occurs_at(text@, pat@, st));
                        }
                    }
                    break;
                },
            }
        }
        page = page + 1;
    }
    hits
}


/// The pages lower-cased, one by one.
fn lowercase_pages(pages: &[String]) -> (lowered: Vec<String>)
    ensures
        lowered@.len() == pages@.len(),
        forall|i: int| 0 <= i < pages@.len() ==> #[trigger] lowered@[i]@ == lowercased(pages@[i]@),
        page_bytes(lowered@) == lowered_bytes(pages@),
{
    let mut lowered: Vec<String> = Vec::new();
    let n = pages.len();
    let mut i: usize = 0;
    while i < n
        invariant
            n == pages@.len(),
            i <= n,
            lowered@.len() == i,
            forall|j: int| 0 <= j < i ==> #[trigger] lowered@[j]@ == lowercased(pages@[j]@),
        decreases n - i,
    {
        lowered.push(to_lowercase(pages[i].as_str()));
        i = i + 1;
    }
    assert(page_bytes(lowered@) =~= lowered_bytes(pages@));
    lowered
}

/// Every occurrence of `query` in `pages`, ignoring case: both are
/// lower-cased and the query's lower-cased bytes are looked for in each
/// page's lower-cased bytes. Positions are offsets into the lower-cased page;
/// each hit ends `query.len()` bytes (of the query as given) after its start.
/// An empty query finds nothing.
pub fn find_all(pages: &[String], query: &str) -> (hits: Vec<Hit>)
    requires
        query@.len() > 0 ==> !search_fails(lowered_bytes(pages@), encode_utf8(lowercased(query@))),
        query@.len() > 0 ==> ends_fit(lowered_bytes(pages@), query.len() as int),
    ensures
        query@.len() == 0 ==> hits@.len() == 0,
        query@.len() > 0 ==> lists_all_matches(
            hits@,
            lowered_bytes(pages@),
            encode_utf8(lowercased(query@)),
            query.len() as int,
        ),
{
    if query.is_empty() {
        return Vec::new();
    }
    let q = to_lowercase(query);
    let lowered = lowercase_pages(pages);
    find_all_lowered(lowered.as_slice(), q.as_str(), query.len())
}

/// `find_all`, for any input: `None` where that search cannot complete
/// (see `search_fails`) or a hit's end would not fit in a `usize`.
pub fn find_all_checked(pages: &[String], query: &str) -> (r: Option<Vec<Hit>>)
    ensures
        r is None <==> query@.len() > 0 && (search_fails(
            lowered_bytes(pages@),
            encode_utf8(lowercased(query@)),
        ) || !ends_fit(lowered_bytes(pages@), query.len() as int)),
        r matches Some(hits) ==> {
            &&& query@.len() == 0 ==> hits@.len() == 0
            &&& query@.len() > 0 ==> lists_all_matches(
                hits@,
                lowered_bytes(pages@),
                encode_utf8(lowercased(query@)),
                query.len() as int,
            )
        },
{
    if query.is_empty() {
        return Some(find_all(pages, query));
    }
    let q = to_lowercase(query);
    let pat = q.as_str().as_bytes();
    let query_len = query.len();
    let lowered = lowercase_pages(pages);
    let ghost all = lowered_bytes(pages@);
    let n = lowered.len();
    let mut i: usize = 0;
    while i < n
        invariant
            n == lowered@.len(),
            all == page_bytes(lowered@),
            all.len() == n,
            all == lowered_bytes(pages@),
            q@ == lowercased(query@),
            query_len == query.len(),
            query@.len() > 0,
            pat@ == encode_utf8(q@),
            i <= n,
            forall|j: int| 0 <= j < i ==> #[trigger] all[j].len() + query_len <= usize::MAX,
            pat@.len() > 0 && pat@[0] >= 0x80 ==> forall|p: int, st: int|
                0 <= p < i ==> !#[trigger] is_match(all, pat@, p, st),
            i > 0 ==> pat@.len() > 0,
        decreases n - i,
    {
        let text = lowered[i].as_str().as_bytes();
        assert(text@ == all[i as int]);
        if text.len() > usize::MAX - query_len {
            assert(!(all[i as int].len() + query_len <= usize::MAX));
            assert(!ends_fit(all, query_len as int));
            return None;
        }
        if pat.len() == 0 {
            assert(all.len() > 0);
            assert(search_fails(all, pat@));
            return None;
        }
        if pat[0] >= 0x80 {
            if let Some(st) = first_occurrence(text, pat, 0) {
                assert(is_match(all, pat@, i as int, st as int));
                return None;
            }
        }
        i = i + 1;
    }
    assert(ends_fit(all, query_len as int));
    assert(!search_fails(all, pat@));
    Some(find_all(pages, query))
}

/// `hits` with every page moved on by `n`.
pub open spec fn shifted(hits: Seq<Hit>, n: int) -> Seq<Hit> {
    hits.map_values(|h: Hit| Hit { page: (h.page + n) as usize, start: h.start, end: h.end })
}

proof fn lemma_lists_concat(
    ha: Seq<Hit>,
    hb: Seq<Hit>,
    a: Seq<Seq<u8>>,
    b: Seq<Seq<u8>>,
    pat: Seq<u8>,
    query_len: int,
)
    requires
        lists_all_matches(ha, a, pat, query_len),
        lists_all_matches(hb, b, pat, query_len),
        a.len() + b.len() <= usize::MAX,
    ensures
        lists_all_matches(ha + shifted(hb, a.len() as int), a + b, pat, query_len),
{
    let n = a.len() as int;
    let sb = shifted(hb, n);
    let h = ha + sb;
    let ab = a + b;
    assert forall|k: int| 0 <= k < h.len() implies {
        &&& is_match(ab, pat, #[trigger] h[k].page as int, h[k].start as int)
        &&& h[k].end == h[k].start + query_len
    } by {
        if k < ha.len() {
            assert(h[k] == ha[k]);
            assert(is_match(a, pat, ha[k].page as int, ha[k].start as int));
            assert(ab[ha[k].page as int] == a[ha[k].page as int]);
        } else {
            let j = k - ha.len();
            assert(h[k] == sb[j]);
            assert(is_match(b, pat, hb[j].page as int, hb[j].start as int));
            assert(ab[n + hb[j].page] == b[hb[j].page as int]);
        }
    }
    assert forall|j: int, k: int| 0 <= j < k < h.len() implies hit_before(#[trigger] h[j], #[trigger] h[k]) by {
        if k < ha.len() {
            assert(hit_before(ha[j], ha[k]));
        } else if j >= ha.len() {
            assert(hit_before(hb[j - ha.len()], hb[k - ha.len()]));
        } else {
            assert(is_match(a, pat, ha[j].page as int, ha[j].start as int));
        }
    }
    assert forall|page: int, start: int| #[trigger] is_match(ab, pat, page, start) implies exists|k: int|
        0 <= k < h.len() && #[trigger] h[k].page == page && h[k].start == start by {
        if page < n {
            assert(ab[page] == a[page]);
            assert(is_match(a, pat, page, start));
            let k = choose|k: int| 0 <= k < ha.len() && #[trigger] ha[k].page == page && ha[k].start == start;
            assert(h[k] == ha[k]);
            assert(h[k].page == page && h[k].start == start);
        } else {
            assert(ab[page] == b[page - n]);
            assert(is_match(b, pat, page - n, start));
            let k = choose|k: int|
                0 <= k < hb.len() && #[trigger] hb[k].page == page - n && hb[k].start == start;
            assert(h[ha.len() + k] == sb[k]);
            assert(sb[k].page == (hb[k].page + n) as usize);
            assert(h[ha.len() + k].page == page && h[ha.len() + k].start == start);
        }
    }
}

proof fn lemma_lists_unique_upto(
    h1: Seq<Hit>,
    h2: Seq<Hit>,
    pages: Seq<Seq<u8>>,
    pat: Seq<u8>,
    query_len: int,
    n: int,
)
    requires
        lists_all_matches(h1, pages, pat, query_len),
        lists_all_matches(h2, pages, pat, query_len),
        0 <= n <= h1.len(),
        n <= h2.len(),
    ensures
        forall|k: int| 0 <= k < n ==> h1[k] == h2[k],
    decreases n,
{
    if n > 0 {
        lemma_lists_unique_upto(h1, h2, pages, pat, query_len, n - 1);
        let m = n - 1;
        let x = h1[m];
        let y = h2[m];
        assert(is_match(pages, pat, x.page as int, x.start as int));
        assert(is_match(pages, pat, y.page as int, y.start as int));
        let j = choose|j: int| 0 <= j < h2.len() && #[trigger] h2[j].page == x.page && h2[j].start == x.start;
        let i = choose|i: int| 0 <= i < h1.len() && #[trigger] h1[i].page == y.page && h1[i].start == y.start;
        if j < m {
            assert(h1[j] == h2[j]);
            assert(hit_before(h1[j], h1[m]));
        }
        if i < m {
            assert(h1[i] == h2[i]);
            assert(hit_before(h2[i], h2[m]));
        }
        if j > m {
            assert(hit_before(h2[m], h2[j]));
            if i > m {
                assert(hit_before(h1[m], h1[i]));
            }
        }
        assert(j == m);
    }
}

/// A list of hits that `lists_all_matches` describes is the only one: two such
/// lists for the same pages, pattern and query length are equal.
proof fn lemma_lists_unique(h1: Seq<Hit>, h2: Seq<Hit>, pages: Seq<Seq<u8>>, pat: Seq<u8>, query_len: int)
    requires
        lists_all_matches(h1, pages, pat, query_len),
        lists_all_matches(h2, pages, pat, query_len),
    ensures
        h1 == h2,
{
    if h1.len() <= h2.len() {
        lemma_lists_unique_upto(h1, h2, pages, pat, query_len, h1.len() as int);
        if h1.len() < h2.len() {
            let y = h2[h1.len() as int];
            assert(is_match(pages, pat, y.page as int, y.start as int));
            let i = choose|i: int| 0 <= i < h1.len() && #[trigger] h1[i].page == y.page && h1[i].start == y.start;
            assert(h1[i] == h2[i]);
            assert(hit_before(h2[i], h2[h1.len() as int]));
        }
    } else {
        lemma_lists_unique_upto(h1, h2, pages, pat, query_len, h2.len() as int);
        let x = h1[h2.len() as int];
        assert(is_match(pages, pat, x.page as int, x.start as int));
        let j = choose|j: int| 0 <= j < h2.len() && #[trigger] h2[j].page == x.page && h2[j].start == x.start;
        assert(h1[j] == h2[j]);
        assert(hit_before(h1[j], h1[h2.len() as int]));
    }
    assert(h1 =~= h2);
}

/// Searching pages `a` followed by pages `b` finds what searching `a` finds,
/// followed by what searching `b` finds with its pages moved on by `a`'s page
/// count: the three searches are `find_all` results (`lists_all_matches`) for
/// the same query.
pub proof fn lemma_find_all_concat(
    a: Seq<String>,
    b: Seq<String>,
    pat: Seq<u8>,
    query_len: int,
    ha: Seq<Hit>,
    hb: Seq<Hit>,
    hab: Seq<Hit>,
)
    requires
        a.len() + b.len() <= usize::MAX,
        lists_all_matches(ha, lowered_bytes(a), pat, query_len),
        lists_all_matches(hb, lowered_bytes(b), pat, query_len),
        lists_all_matches(hab, lowered_bytes(a + b), pat, query_len),
    ensures
        hab == ha + shifted(hb, a.len() as int),
{
    assert(lowered_bytes(a + b) =~= lowered_bytes(a) + lowered_bytes(b));
    lemma_lists_concat(ha, hb, lowered_bytes(a), lowered_bytes(b), pat, query_len);
    lemma_lists_unique(hab, ha + shifted(hb, a.len() as int), lowered_bytes(a + b), pat, query_len);
}

} // verus!
