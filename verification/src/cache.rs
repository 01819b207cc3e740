//! The cache of rendered pages: at most `PAGE_CACHE_CAPACITY` textures, keyed
//! by page index, dropping the least recently used one to make room.

use std::collections::{HashMap, VecDeque};
use vstd::prelude::*;

verus! {

broadcast use vstd::std_specs::hash::group_hash_axioms;

/// How many rendered pages are kept.
pub const PAGE_CACHE_CAPACITY: usize = 15;

/// Rendered pages by page index, with their order of use.
pub struct PageCache<T> {
    textures: HashMap<usize, T>,
    order: VecDeque<usize>,
}

/// What every cache satisfies: each page is listed once, the textures are
/// exactly those of the listed pages, and there are at most
/// `PAGE_CACHE_CAPACITY` of them.
pub open spec fn valid_cache<T>(pages: Seq<usize>, textures: Map<usize, T>) -> bool {
    &&& pages.no_duplicates()
    &&& forall|p: usize| #[trigger] textures.contains_key(p) <==> pages.contains(p)
    &&& pages.len() <= PAGE_CACHE_CAPACITY
}

/// `order` with `page` taken from where it stands and put at the end.
pub open spec fn moved_to_back(order: Seq<usize>, page: usize) -> Seq<usize> {
    order.remove(order.index_of(page)).push(page)
}

impl<T> PageCache<T> {
    /// The cached pages, least recently used first.
    pub closed spec fn pages(&self) -> Seq<usize> {
        self.order@
    }

    /// The cached textures by page.
    pub closed spec fn textures(&self) -> Map<usize, T> {
        self.textures@
    }

    #[verifier::type_invariant]
    closed spec fn well_formed(&self) -> bool {
        valid_cache(self.order@, self.textures@)
    }

    /// An empty cache.
    pub fn new() -> (c: Self)
        ensures
            c.pages() == Seq::<usize>::empty(),
            c.textures() == Map::<usize, T>::empty(),
            valid_cache(c.pages(), c.textures()),
    {
        PageCache { textures: HashMap::new(), order: VecDeque::new() }
    }

    /// The number of cached pages.
    pub fn len(&self) -> (n: usize)
        ensures
            n == self.pages().len(),
            valid_cache(self.pages(), self.textures()),
    {
        proof {
            use_type_invariant(self);
        }
        self.order.len()
    }

    /// Whether page `page` is cached.
    pub fn contains(&self, page: usize) -> (b: bool)
        ensures
            b == self.pages().contains(page),
            b == self.textures().contains_key(page),
    {
        proof {
            use_type_invariant(self);
        }
        self.textures.contains_key(&page)
    }

    /// The texture of page `page`, if cached.
    pub fn get(&self, page: usize) -> (t: Option<&T>)
        ensures
            match t {
                Some(t) => self.textures().contains_key(page) && *t == self.textures()[page],
                None => !self.textures().contains_key(page),
            },
    {
        self.textures.get(&page)
    }

    /// Drops every cached page.
    pub fn clear(&mut self)
        ensures
            final(self).pages() == Seq::<usize>::empty(),
            final(self).textures() == Map::<usize, T>::empty(),
            valid_cache(final(self).pages(), final(self).textures()),
    {
        *self = PageCache::new();
    }

    /// A use of page `page`: when it is cached it becomes the most recently
    /// used and `true` is returned; otherwise nothing changes.
    pub fn touch(&mut self, page: usize) -> (hit: bool)
        ensures
            hit == old(self).pages().contains(page),
            hit ==> final(self).pages() == moved_to_back(old(self).pages(), page),
            hit ==> final(self).pages() == old(self).pages().remove(old(self).pages().index_of(page)).push(page),
            hit ==> final(self).pages().len() == old(self).pages().len(),
            hit ==> final(self).pages().last() == page,
            hit ==> forall|j: int|
                0 <= j < old(self).pages().index_of(page) ==> #[trigger] final(self).pages()[j] == old(self).pages()[j],
            hit ==> forall|j: int|
                old(self).pages().index_of(page) <= j < old(self).pages().len() - 1 ==> #[trigger] final(self).pages()[j]
                    == old(self).pages()[j + 1],
            !hit ==> final(self).pages() == old(self).pages(),
            final(self).textures() == old(self).textures(),
            valid_cache(old(self).pages(), old(self).textures()),
            valid_cache(final(self).pages(), final(self).textures()),
    {
        proof {
            use_type_invariant(&*self);
        }
        if !self.textures.contains_key(&page) {
            return false;
        }
        let n = self.order.len();
        let mut i: usize = 0;
        while i < n
            invariant
                n == self.order@.len(),
                i <= n,
                self.order@.contains(page),
                forall|j: int| 0 <= j < i ==> self.order@[j] != page,
            ensures
                i < n,
                self.order@[i as int] == page,
            decreases n - i,
        {
            if self.order[i] == page {
                break;
            }
            i = i + 1;
        }
        let ghost before = self.order@;
        let mut taken = PageCache::new();
        std::mem::swap(&mut taken, self);
        proof {
            use_type_invariant(&taken);
        }
        let PageCache { textures, mut order } = taken;
        order.remove(i);
        order.push_back(page);
        proof {
            assert(before.index_of(page) == i) by {
                let j = before.index_of(page);
                assert(before.contains(page));
                assert(0 <= j < before.len() && before[j] == page);
                assert(before.no_duplicates());
            }
            assert(order@ =~= moved_to_back(before, page));
            assert(order@ =~= before.remove(i as int).push(page));
            lemma_moved_to_back_keeps_order(before, i as int);
            assert forall|p: usize| textures@.contains_key(p) <==> order@.contains(p) by {
                if before.contains(p) && p != page {
                    let j = choose|j: int| 0 <= j < before.len() && before[j] == p;
                    if j < i {
                        assert(order@[j] == p);
                    } else {
                        assert(order@[j - 1] == p);
                    }
                }
                if order@.contains(p) {
                    let j = choose|j: int| 0 <= j < order@.len() && order@[j] == p;
                    if j < i {
                        assert(before[j] == p);
                    } else if j < order@.len() - 1 {
                        assert(before[j + 1] == p);
                    }
                }
                assert(order@[order@.len() - 1] == page);
            }
        }
        *self = PageCache { textures, order };
        true
    }

    /// Adds the texture of a page that is not cached yet. When the cache is
    /// full, the least recently used page is dropped first.
    pub fn insert(&mut self, page: usize, texture: T)
        requires
            !old(self).pages().contains(page),
        ensures
            old(self).pages().len() >= PAGE_CACHE_CAPACITY ==> {
                &&& final(self).pages() == old(self).pages().drop_first().push(page)
                &&& final(self).textures() == old(self).textures().remove(old(self).pages()[0]).insert(
                    page,
                    texture,
                )
            },
            old(self).pages().len() < PAGE_CACHE_CAPACITY ==> {
                &&& final(self).pages() == old(self).pages().push(page)
                &&& final(self).textures() == old(self).textures().insert(page, texture)
            },
            valid_cache(old(self).pages(), old(self).textures()),
            valid_cache(final(self).pages(), final(self).textures()),
    {
        proof {
            use_type_invariant(&*self);
        }
        let ghost before = self.order@;
        let mut taken = PageCache::new();
        std::mem::swap(&mut taken, self);
        proof {
            use_type_invariant(&taken);
        }
        let PageCache { mut textures, mut order } = taken;
        if order.len() >= PAGE_CACHE_CAPACITY {
            if let Some(oldest) = order.pop_front() {
                textures.remove(&oldest);
            }
        }
        textures.insert(page, texture);
        order.push_back(page);
        proof {
            assert forall|p: usize| textures@.contains_key(p) <==> order@.contains(p) by {
                if p != page {
                    if before.len() >= PAGE_CACHE_CAPACITY {
                        if order@.contains(p) {
                            let j = choose|j: int| 0 <= j < order@.len() && order@[j] == p;
                            assert(before[j + 1] == p);
                        }
                        if before.contains(p) && p != before[0] {
                            let j = choose|j: int| 0 <= j < before.len() && before[j] == p;
                            assert(order@[j - 1] == p);
                        }
                    } else {
                        if order@.contains(p) {
                            let j = choose|j: int| 0 <= j < order@.len() && order@[j] == p;
                            assert(before[j] == p);
                        }
                        if before.contains(p) {
                            let j = choose|j: int| 0 <= j < before.len() && before[j] == p;
                            assert(order@[j] == p);
                        }
                    }
                } else {
                    assert(order@[order@.len() - 1] == page);
                }
            }
        }
        *self = PageCache { textures, order };
    }
}

/// Using a cached page keeps the same pages, each once, and makes that page
/// the most recently used.
pub proof fn lemma_moved_to_back(order: Seq<usize>, page: usize)
    requires
        order.no_duplicates(),
        order.contains(page),
    ensures
        moved_to_back(order, page).len() == order.len(),
        moved_to_back(order, page).last() == page,
        moved_to_back(order, page).no_duplicates(),
        forall|p: usize| #[trigger] moved_to_back(order, page).contains(p) <==> order.contains(p),
{
    let i = order.index_of(page);
    assert(0 <= i < order.len() && order[i] == page);
    let r = moved_to_back(order, page);
    let rest = order.remove(i);
    assert(r == rest.push(page));
    assert(forall|j: int| 0 <= j < i ==> rest[j] == order[j]);
    assert(forall|j: int| i <= j < rest.len() ==> rest[j] == order[j + 1]);
    assert forall|j: int, k: int| 0 <= j < r.len() && 0 <= k < r.len() && j != k implies r[j] != r[k] by {
        if j < rest.len() && k < rest.len() {
            let oj = if j < i { j } else { j + 1 };
            let ok = if k < i { k } else { k + 1 };
            assert(r[j] == order[oj] && r[k] == order[ok]);
        } else if j < rest.len() {
            let oj = if j < i { j } else { j + 1 };
            assert(r[j] == order[oj] && oj != i);
        } else if k < rest.len() {
            let ok = if k < i { k } else { k + 1 };
            assert(r[k] == order[ok] && ok != i);
        }
    }
    assert forall|p: usize| #[trigger] r.contains(p) <==> order.contains(p) by {
        if r.contains(p) {
            let j = choose|j: int| 0 <= j < r.len() && r[j] == p;
            if j < rest.len() {
                let oj = if j < i { j } else { j + 1 };
                assert(order[oj] == p);
            }
        }
        if order.contains(p) {
            let j = choose|j: int| 0 <= j < order.len() && order[j] == p;
            if j < i {
                assert(r[j] == p);
            } else if j > i {
                assert(r[j - 1] == p);
            } else {
                assert(r[r.len() - 1] == p);
            }
        }
    }
}

/// Using cached page `order[i]` takes it from position `i` and puts it last;
/// every other page keeps its place relative to the rest: the pages before
/// position `i` stay where they were and those after it move one place
/// forward. So the first page is still the least recently used unless it was
/// the one used.
pub proof fn lemma_moved_to_back_keeps_order(order: Seq<usize>, i: int)
    requires
        order.no_duplicates(),
        0 <= i < order.len(),
    ensures
        moved_to_back(order, order[i]).len() == order.len(),
        moved_to_back(order, order[i])[order.len() - 1] == order[i],
        forall|j: int| 0 <= j < i ==> #[trigger] moved_to_back(order, order[i])[j] == order[j],
        forall|j: int| i <= j < order.len() - 1 ==> #[trigger] moved_to_back(order, order[i])[j] == order[j + 1],
{
    let page = order[i];
    assert(order.contains(page));
    let k = order.index_of(page);
    assert(0 <= k < order.len() && order[k] == page);
    assert(k == i);
    let r = moved_to_back(order, page);
    let rest = order.remove(i);
    assert(r == rest.push(page));
}

} // verus!
