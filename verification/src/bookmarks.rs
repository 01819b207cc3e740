//! The reading-position bookmark file: one line per document, the document's
//! path, a bar, and the saved scroll offset as text.

use vstd::prelude::*;

use crate::text::{
    chars_of, has_prefix, lines, lines_of, push_char, push_str, split_newlines, starts_with, strip_cr,
};

verus! {

/// The bookmark line for `path` with saved value `value`.
pub open spec fn bookmark_line(path: Seq<char>, value: Seq<char>) -> Seq<char> {
    path + seq!['|'] + value
}

/// The lines of `ls` that do not start with `path`, in order.
pub open spec fn without_prefixed(ls: Seq<Seq<char>>, path: Seq<char>) -> Seq<Seq<char>>
    decreases ls.len(),
{
    if ls.len() == 0 {
        Seq::empty()
    } else {
        let prev = without_prefixed(ls.drop_last(), path);
        if has_prefix(ls.last(), path) {
            prev
        } else {
            prev.push(ls.last())
        }
    }
}

/// The lines joined with line feeds between them.
pub open spec fn joined(ls: Seq<Seq<char>>) -> Seq<char>
    decreases ls.len(),
{
    if ls.len() == 0 {
        Seq::empty()
    } else if ls.len() == 1 {
        ls[0]
    } else {
        joined(ls.drop_last()) + seq!['\n'] + ls.last()
    }
}

/// The bookmark file `contents` after saving `value` for `path`: the lines of
/// other documents kept in order, the line for `path` last.
pub open spec fn saved_bookmarks(contents: Seq<char>, path: Seq<char>, value: Seq<char>) -> Seq<char> {
    joined(without_prefixed(lines_of(contents), path).push(bookmark_line(path, value)))
}

/// Line `i` is the first line that starts with `path`.
pub open spec fn is_first_prefixed(ls: Seq<Seq<char>>, path: Seq<char>, i: int) -> bool {
    &&& 0 <= i < ls.len()
    &&& has_prefix(ls[i], path)
    &&& forall|j: int| 0 <= j < i ==> !has_prefix(#[trigger] ls[j], path)
}

/// Index `i` holds the first bar of `s`.
pub open spec fn is_first_bar(s: Seq<char>, i: int) -> bool {
    &&& 0 <= i < s.len()
    &&& s[i] == '|'
    &&& forall|j: int| 0 <= j < i ==> #[trigger] s[j] != '|'
}

/// The second bar-separated field of `s`: what lies between its first and its
/// second bar, or after the first bar when there is only one; `None` when `s`
/// has no bar.
pub open spec fn second_field(s: Seq<char>) -> Option<Seq<char>> {
    if exists|i: int| is_first_bar(s, i) {
        let a = choose|i: int| is_first_bar(s, i);
        let rest = s.subrange(a + 1, s.len() as int);
        if exists|j: int| is_first_bar(rest, j) {
            Some(rest.subrange(0, choose|j: int| is_first_bar(rest, j)))
        } else {
            Some(rest)
        }
    } else {
        None
    }
}

/// The value saved for `path` in bookmark file `contents`: the second field
/// of the first line that starts with `path`.
pub open spec fn saved_value(contents: Seq<char>, path: Seq<char>) -> Option<Seq<char>> {
    let ls = lines_of(contents);
    if exists|i: int| is_first_prefixed(ls, path, i) {
        second_field(ls[choose|i: int| is_first_prefixed(ls, path, i)])
    } else {
        None
    }
}

/// The bookmark file after saving `value` (the scroll offset as text) for the
/// document at `path`: every line that starts with `path` is dropped and the
/// line `path|value` is added at the end; lines are joined with line feeds.
pub fn updated_bookmarks(contents: &str, path: &str, value: &str) -> (r: String)
    ensures
        r@ == saved_bookmarks(contents@, path@, value@),
{
    let ls = lines(contents);
    let ghost lv = lines_of(contents@);
    assert(ls@.len() == lv.len());
    let mut out = String::new();
    let mut empty = true;
    let mut i: usize = 0;
    while i < ls.len()
        invariant
            lv == lines_of(contents@),
            ls@.map_values(|l: String| l@) == lv,
            i <= ls@.len(),
            out@ == joined(without_prefixed(lv.subrange(0, i as int), path@)),
            empty == (without_prefixed(lv.subrange(0, i as int), path@).len() == 0),
        decreases ls@.len() - i,
    {
        let line = ls[i].as_str();
        assert(line@ == lv[i as int]);
        assert(lv.subrange(0, i + 1).drop_last() =~= lv.subrange(0, i as int));
        let ghost prev = without_prefixed(lv.subrange(0, i as int), path@);
        if !starts_with(line, path) {
            if !empty {
                push_char(&mut out, '\n');
            }
            push_str(&mut out, line);
            empty = false;
            assert(prev.push(line@).drop_last() =~= prev);
            assert(out@ =~= joined(prev.push(line@)));
        }
        i = i + 1;
    }
    assert(lv.subrange(0, lv.len() as int) =~= lv);
    let ghost kept = without_prefixed(lv, path@);
    if !empty {
        push_char(&mut out, '\n');
    }
    push_str(&mut out, path);
    push_char(&mut out, '|');
    push_str(&mut out, value);
    assert(kept.push(bookmark_line(path@, value@)).drop_last() =~= kept);
    assert(out@ =~= saved_bookmarks(contents@, path@, value@));
    out
}

/// The second bar-separated field of `cs`, as `second_field`.
pub fn second_field_of(cs: &Vec<char>) -> (r: Option<String>)
    ensures
        match r {
            Some(v) => second_field(cs@) == Some(v@),
            None => second_field(cs@) is None,
        },
{
    let n = cs.len();
    let mut a: usize = 0;
    while a < n && cs[a] != '|'
        invariant
            n == cs@.len(),
            a <= n,
            forall|j: int| 0 <= j < a ==> #[trigger] cs@[j] != '|',
        decreases n - a,
    {
        a = a + 1;
    }
    if a == n {
        assert(!exists|i: int| is_first_bar(cs@, i));
        return None;
    }
    assert(is_first_bar(cs@, a as int));
    let ghost rest = cs@.subrange(a + 1, n as int);
    let mut field = String::new();
    let mut k = a + 1;
    while k < n && cs[k] != '|'
        invariant
            n == cs@.len(),
            a < k <= n,
            rest == cs@.subrange(a + 1, n as int),
            forall|j: int| a < j < k ==> #[trigger] cs@[j] != '|',
            field@ == cs@.subrange(a + 1, k as int),
        decreases n - k,
    {
        push_char(&mut field, cs[k]);
        assert(field@ =~= cs@.subrange(a + 1, k + 1));
        k = k + 1;
    }
    proof {
        let a0 = choose|i: int| is_first_bar(cs@, i);
        assert(a0 == a as int) by {
            if a0 < a {
                assert(cs@[a0] != '|');
            }
            if a0 > a {
                assert(cs@[a as int] != '|');
            }
        }
        if k < n {
            assert(is_first_bar(rest, k - a - 1));
            let b0 = choose|j: int| is_first_bar(rest, j);
            assert(b0 == k - a - 1) by {
                if b0 < k - a - 1 {
                    assert(rest[b0] == cs@[a + 1 + b0]);
                }
                if b0 > k - a - 1 {
                    assert(rest[k - a - 1] == '|');
                }
            }
            assert(field@ =~= rest.subrange(0, k - a - 1));
        } else {
            assert forall|j: int| !is_first_bar(rest, j) by {
                if 0 <= j < rest.len() {
                    assert(rest[j] == cs@[a + 1 + j]);
                }
            }
            assert(field@ =~= rest);
        }
    }
    Some(field)
}

/// The value saved for the document at `path` in bookmark file `contents`:
/// the text after the first bar (up to any second bar) of the first line that
/// starts with `path`; `None` when no line starts with `path` or that line
/// has no bar.
pub fn bookmark_value(contents: &str, path: &str) -> (r: Option<String>)
    ensures
        match r {
            Some(v) => saved_value(contents@, path@) == Some(v@),
            None => saved_value(contents@, path@) is None,
        },
{
    let ls = lines(contents);
    let ghost lv = lines_of(contents@);
    assert(ls@.len() == lv.len());
    let mut i: usize = 0;
    while i < ls.len()
        invariant
            lv == lines_of(contents@),
            ls@.map_values(|l: String| l@) == lv,
            i <= ls@.len(),
            forall|j: int| 0 <= j < i ==> !has_prefix(#[trigger] lv[j], path@),
        decreases ls@.len() - i,
    {
        let line = ls[i].as_str();
        assert(line@ == lv[i as int]);
        if starts_with(line, path) {
            assert(is_first_prefixed(lv, path@, i as int));
            proof {
                let i0 = choose|j: int| is_first_prefixed(lv, path@, j);
                assert(i0 == i as int) by {
                    if i0 < i {
                        assert(!has_prefix(lv[i0], path@));
                    }
                    if i0 > i {
                        assert(has_prefix(lv[i as int], path@));
                    }
                }
            }
            let cs = chars_of(line);
            return second_field_of(&cs);
        }
        i = i + 1;
    }
    assert(!exists|j: int| is_first_prefixed(lv, path@, j));
    None
}

proof fn lemma_split_len(s: Seq<char>)
    ensures
        split_newlines(s).len() >= 1,
    decreases s.len(),
{
    if s.len() > 0 {
        lemma_split_len(s.drop_last());
    }
}

proof fn lemma_split_pieces_have_no_newline(s: Seq<char>)
    ensures
        forall|i: int| 0 <= i < split_newlines(s).len() ==> !(#[trigger] split_newlines(s)[i]).contains('\n'),
    decreases s.len(),
{
    if s.len() > 0 {
        lemma_split_pieces_have_no_newline(s.drop_last());
        lemma_split_len(s.drop_last());
        let rest = split_newlines(s.drop_last());
        if s.last() != '\n' {
            let last = rest.last().push(s.last());
            assert forall|j: int| 0 <= j < last.len() implies last[j] != '\n' by {
                if j < last.len() - 1 {
                    assert(last[j] == rest.last()[j]);
                    assert(rest[rest.len() - 1] == rest.last());
                }
            }
        }
    }
}

proof fn lemma_split_append_line(s: Seq<char>, t: Seq<char>)
    requires
        !t.contains('\n'),
    ensures
        split_newlines(s + t) == split_newlines(s).update(
            split_newlines(s).len() - 1,
            split_newlines(s).last() + t,
        ),
    decreases t.len(),
{
    lemma_split_len(s);
    if t.len() == 0 {
        assert(s + t =~= s);
        assert(split_newlines(s).last() + t =~= split_newlines(s).last());
        assert(split_newlines(s).update(split_newlines(s).len() - 1, split_newlines(s).last())
            =~= split_newlines(s));
    } else {
        let t0 = t.drop_last();
        assert(!t0.contains('\n')) by {
            assert forall|j: int| 0 <= j < t0.len() implies t0[j] != '\n' by {
                assert(t0[j] == t[j]);
            }
        }
        lemma_split_append_line(s, t0);
        assert((s + t).drop_last() =~= s + t0);
        assert((s + t).last() == t.last());
        assert(t.last() != '\n') by {
            assert(t[t.len() - 1] == t.last());
        }
        let ps = split_newlines(s);
        let mid = ps.update(ps.len() - 1, ps.last() + t0);
        assert(mid.last() == ps.last() + t0);
        assert((ps.last() + t0).push(t.last()) =~= ps.last() + t);
        assert(mid.update(mid.len() - 1, mid.last().push(t.last())) =~= ps.update(ps.len() - 1, ps.last() + t));
    }
}

proof fn lemma_split_joined(ls: Seq<Seq<char>>)
    requires
        ls.len() >= 1,
        forall|i: int| 0 <= i < ls.len() ==> !(#[trigger] ls[i]).contains('\n'),
    ensures
        split_newlines(joined(ls)) == ls,
    decreases ls.len(),
{
    let e = Seq::<char>::empty();
    if ls.len() == 1 {
        lemma_split_append_line(e, ls[0]);
        assert(e + ls[0] =~= ls[0]);
        assert(split_newlines(e) =~= seq![e]);
        assert(seq![e].update(0, e + ls[0]) =~= ls);
    } else {
        let front = ls.drop_last();
        assert forall|i: int| 0 <= i < front.len() implies !(#[trigger] front[i]).contains('\n') by {
            assert(front[i] == ls[i]);
        }
        lemma_split_joined(front);
        let j = joined(front).push('\n');
        assert(j.drop_last() =~= joined(front));
        assert(split_newlines(j) == front.push(e));
        assert(ls[ls.len() - 1] == ls.last());
        lemma_split_append_line(j, ls.last());
        assert(joined(front) + seq!['\n'] =~= j);
        assert(front.push(e).update(front.len() as int, e + ls.last()) =~= ls);
    }
}

proof fn lemma_without_prefixed(ls: Seq<Seq<char>>, path: Seq<char>)
    requires
        forall|i: int| 0 <= i < ls.len() ==> !(#[trigger] ls[i]).contains('\n'),
    ensures
        forall|i: int| 0 <= i < without_prefixed(ls, path).len() ==> {
            &&& !(#[trigger] without_prefixed(ls, path)[i]).contains('\n')
            &&& !has_prefix(without_prefixed(ls, path)[i], path)
        },
    decreases ls.len(),
{
    if ls.len() > 0 {
        let front = ls.drop_last();
        assert forall|i: int| 0 <= i < front.len() implies !(#[trigger] front[i]).contains('\n') by {
            assert(front[i] == ls[i]);
        }
        lemma_without_prefixed(front, path);
        assert(ls[ls.len() - 1] == ls.last());
        let prev = without_prefixed(front, path);
        let r = without_prefixed(ls, path);
        assert forall|i: int| 0 <= i < r.len() implies {
            &&& !(#[trigger] r[i]).contains('\n')
            &&& !has_prefix(r[i], path)
        } by {
            if i < prev.len() {
                assert(r[i] == prev[i]);
            } else {
                assert(r[i] == ls.last());
            }
        }
    }
}

proof fn lemma_lines_have_no_newline(s: Seq<char>)
    ensures
        forall|i: int| 0 <= i < lines_of(s).len() ==> !(#[trigger] lines_of(s)[i]).contains('\n'),
{
    lemma_split_pieces_have_no_newline(s);
    lemma_split_len(s);
    let pieces = split_newlines(s);
    assert forall|i: int| 0 <= i < lines_of(s).len() implies !(#[trigger] lines_of(s)[i]).contains('\n') by {
        let l = lines_of(s)[i];
        let p = pieces[i];
        assert(!p.contains('\n'));
        if l != p {
            assert(l == p.drop_last());
            assert forall|j: int| 0 <= j < l.len() implies l[j] != '\n' by {
                assert(l[j] == p[j]);
            }
        }
    }
}

/// Reading back a bookmark file that was just saved for `path` gives the value
/// saved, whatever the file held before: the lines of other documents cannot
/// shadow it, since every line that starts with `path` was dropped. Neither
/// the path nor the value may hold a line feed or a bar, which would change
/// the file's line or field structure.
pub proof fn lemma_saved_value_read_back(contents: Seq<char>, path: Seq<char>, value: Seq<char>)
    requires
        !path.contains('\n'),
        !path.contains('|'),
        !value.contains('\n'),
        !value.contains('|'),
    ensures
        saved_value(saved_bookmarks(contents, path, value), path) == Some(value),
{
    let kept = without_prefixed(lines_of(contents), path);
    let b = bookmark_line(path, value);
    let all = kept.push(b);
    lemma_lines_have_no_newline(contents);
    lemma_without_prefixed(lines_of(contents), path);
    assert(!b.contains('\n')) by {
        assert forall|j: int| 0 <= j < b.len() implies b[j] != '\n' by {
            if j < path.len() {
                assert(b[j] == path[j]);
            } else if j > path.len() {
                assert(b[j] == value[j - path.len() - 1]);
            }
        }
    }
    assert forall|i: int| 0 <= i < all.len() implies !(#[trigger] all[i]).contains('\n') by {
        if i < kept.len() {
            assert(all[i] == kept[i]);
        }
    }
    lemma_split_joined(all);
    let s = saved_bookmarks(contents, path, value);
    let ls = lines_of(s);
    let n = all.len() as int;
    assert(split_newlines(s) == all);
    assert(all[n - 1] == b);
    assert(b.len() > 0);
    assert(ls.len() == n);
    assert(b.subrange(0, path.len() as int) =~= path);
    assert(has_prefix(ls[n - 1], path));
    assert forall|j: int| 0 <= j < n - 1 implies !has_prefix(#[trigger] ls[j], path) by {
        assert(ls[j] == strip_cr(kept[j]));
        assert(all[j] == kept[j]);
        if has_prefix(ls[j], path) {
            assert(kept[j].subrange(0, path.len() as int) =~= ls[j].subrange(0, path.len() as int));
        }
    }
    assert(is_first_prefixed(ls, path, n - 1));
    let i0 = choose|i: int| is_first_prefixed(ls, path, i);
    assert(i0 == n - 1) by {
        if i0 < n - 1 {
            assert(!has_prefix(ls[i0], path));
        }
    }
    let bar = path.len() as int;
    assert(is_first_bar(b, bar)) by {
        assert forall|j: int| 0 <= j < bar implies #[trigger] b[j] != '|' by {
            assert(b[j] == path[j]);
        }
    }
    let a = choose|i: int| is_first_bar(b, i);
    assert(a == bar) by {
        if a < bar {
            assert(b[a] == path[a]);
        }
    }
    let rest = b.subrange(a + 1, b.len() as int);
    assert(rest =~= value);
    assert(!exists|j: int| is_first_bar(rest, j));
}

} // verus!
