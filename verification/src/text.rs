//! The parts of std's string handling that the viewer's logic uses, each
//! behind a small wrapper whose contract states what std documents.

use vstd::prelude::*;

verus! {

/// The characters that `str::to_lowercase` gives for `s`.
pub uninterp spec fn lowercased(s: Seq<char>) -> Seq<char>;

/// Calls `str::to_lowercase`. Its result depends on the argument alone (the
/// Unicode `Lowercase` mapping, with the context rule for final sigma); the
/// contract names that result and says nothing more about it.
#[verifier::external_body]
pub(crate) fn to_lowercase(s: &str) -> (r: String)
    ensures
        r@ == lowercased(s@),
{
    s.to_lowercase()
}

/// A character with the Unicode `White_Space` property, which is what
/// `char::is_whitespace` and `str::trim` test.
pub open spec fn is_white_space(c: char) -> bool {
    let u = c as u32;
    ||| 0x09 <= u <= 0x0d
    ||| u == 0x20
    ||| u == 0x85
    ||| u == 0xa0
    ||| u == 0x1680
    ||| 0x2000 <= u <= 0x200a
    ||| u == 0x2028
    ||| u == 0x2029
    ||| u == 0x202f
    ||| u == 0x205f
    ||| u == 0x3000
}

/// `s` without its leading white space.
pub open spec fn trimmed_start(s: Seq<char>) -> Seq<char>
    decreases s.len(),
{
    if s.len() > 0 && is_white_space(s[0]) {
        trimmed_start(s.drop_first())
    } else {
        s
    }
}

/// `s` without its trailing white space.
pub open spec fn trimmed_end(s: Seq<char>) -> Seq<char>
    decreases s.len(),
{
    if s.len() > 0 && is_white_space(s.last()) {
        trimmed_end(s.drop_last())
    } else {
        s
    }
}

/// `s` without leading and trailing white space.
pub open spec fn trimmed(s: Seq<char>) -> Seq<char> {
    trimmed_end(trimmed_start(s))
}

/// Trimming the start leaves nothing exactly when `s` is all white space;
/// otherwise what is left starts with a character that is not white space.
pub proof fn lemma_trimmed_start(s: Seq<char>)
    ensures
        (forall|i: int| 0 <= i < s.len() ==> is_white_space(#[trigger] s[i])) ==> trimmed_start(s).len()
            == 0,
        (exists|i: int| 0 <= i < s.len() && !is_white_space(#[trigger] s[i])) ==> {
            &&& trimmed_start(s).len() > 0
            &&& !is_white_space(trimmed_start(s)[0])
        },
    decreases s.len(),
{
    if s.len() > 0 && is_white_space(s[0]) {
        let t = s.drop_first();
        lemma_trimmed_start(t);
        if forall|i: int| 0 <= i < s.len() ==> is_white_space(#[trigger] s[i]) {
            assert forall|i: int| 0 <= i < t.len() implies is_white_space(#[trigger] t[i]) by {
                assert(t[i] == s[i + 1]);
            }
        }
        if exists|i: int| 0 <= i < s.len() && !is_white_space(#[trigger] s[i]) {
            let i = choose|i: int| 0 <= i < s.len() && !is_white_space(#[trigger] s[i]);
            assert(i > 0);
            assert(t[i - 1] == s[i]);
        }
    } else if s.len() > 0 {
        assert(!is_white_space(s[0]));
    }
}

/// Trimming the end of a sequence that starts with a character that is not
/// white space leaves that character.
pub proof fn lemma_trimmed_end_keeps_first(s: Seq<char>)
    requires
        s.len() > 0,
        !is_white_space(s[0]),
    ensures
        trimmed_end(s).len() > 0,
    decreases s.len(),
{
    if is_white_space(s.last()) {
        assert(s.len() > 1);
        assert(s.drop_last()[0] == s[0]);
        lemma_trimmed_end_keeps_first(s.drop_last());
    }
}

/// A string trims to nothing exactly when every one of its characters is
/// white space (line feeds and carriage returns among them).
pub proof fn lemma_trimmed_empty(s: Seq<char>)
    ensures
        trimmed(s).len() == 0 <==> forall|i: int| 0 <= i < s.len() ==> is_white_space(#[trigger] s[i]),
{
    lemma_trimmed_start(s);
    if forall|i: int| 0 <= i < s.len() ==> is_white_space(#[trigger] s[i]) {
        assert(trimmed_start(s).len() == 0);
        assert(trimmed_end(trimmed_start(s)) == trimmed_start(s));
    } else {
        let i = choose|i: int| !(0 <= i < s.len() ==> is_white_space(#[trigger] s[i]));
        assert(0 <= i < s.len() && !is_white_space(s[i]));
        lemma_trimmed_end_keeps_first(trimmed_start(s));
    }
}

/// Calls `str::trim`: `s` without leading and trailing white space, white
/// space being the Unicode `White_Space` property as std documents.
#[verifier::external_body]
pub(crate) fn trim(s: &str) -> (r: &str)
    ensures
        r@ == trimmed(s@),
{
    s.trim()
}

/// Calls `String::push_str`: appends `t` to `s`.
#[verifier::external_body]
pub(crate) fn push_str(s: &mut String, t: &str)
    ensures
        final(s)@ == old(s)@ + t@,
{
    s.push_str(t)
}

/// Calls `String::push`: appends the character `c` to `s`.
#[verifier::external_body]
pub(crate) fn push_char(s: &mut String, c: char)
    ensures
        final(s)@ == old(s)@.push(c),
{
    s.push(c)
}

/// `p` is a prefix of `s`.
pub open spec fn has_prefix(s: Seq<char>, p: Seq<char>) -> bool {
    p.len() <= s.len() && s.subrange(0, p.len() as int) == p
}

/// Calls `str::starts_with` with a string pattern: whether `p` is a prefix of
/// `s`.
#[verifier::external_body]
pub(crate) fn starts_with(s: &str, p: &str) -> (b: bool)
    ensures
        b == has_prefix(s@, p@),
{
    s.starts_with(p)
}

/// The pieces of `s` between line feeds: one more than there are line feeds.
pub open spec fn split_newlines(s: Seq<char>) -> Seq<Seq<char>>
    decreases s.len(),
{
    if s.len() == 0 {
        seq![Seq::empty()]
    } else {
        let rest = split_newlines(s.drop_last());
        if s.last() == '\n' {
            rest.push(Seq::empty())
        } else {
            rest.update(rest.len() - 1, rest.last().push(s.last()))
        }
    }
}

/// `l` without one carriage return at its end.
pub open spec fn strip_cr(l: Seq<char>) -> Seq<char> {
    if l.len() > 0 && l.last() == '\r' {
        l.drop_last()
    } else {
        l
    }
}

/// The lines of `s` as `str::lines` gives them: split at line feeds, with a
/// carriage return before a line feed removed, and no final empty line after
/// a terminating line feed.
pub open spec fn lines_of(s: Seq<char>) -> Seq<Seq<char>> {
    let pieces = split_newlines(s);
    let n = pieces.len() as int;
    let kept = if pieces[n - 1].len() == 0 {
        n - 1
    } else {
        n
    };
    Seq::new(
        kept as nat,
        |i: int|
            if i < n - 1 {
                strip_cr(pieces[i])
            } else {
                pieces[i]
            },
    )
}

/// Calls `str::lines`, each line copied into a `String`: the lines of `s` as
/// std documents them (line feed or carriage return + line feed ends a line;
/// the final line ending is optional; a bare carriage return stays).
#[verifier::external_body]
pub(crate) fn lines(s: &str) -> (r: Vec<String>)
    ensures
        r@.map_values(|l: String| l@) == lines_of(s@),
{
    s.lines().map(|l| l.to_string()).collect()
}

/// Calls `str::chars`, the characters collected into a vector.
#[verifier::external_body]
pub(crate) fn chars_of(s: &str) -> (r: Vec<char>)
    ensures
        r@ == s@,
{
    s.chars().collect()
}

/// A decimal digit.
pub open spec fn is_digit(c: char) -> bool {
    '0' <= c && c <= '9'
}

/// The number that the decimal digits `d` write.
pub open spec fn decimal_value(d: Seq<char>) -> nat
    decreases d.len(),
{
    if d.len() == 0 {
        0
    } else {
        decimal_value(d.drop_last()) * 10 + ((d.last() as int - '0' as int) as nat)
    }
}

/// `s` without one leading plus sign.
pub open spec fn unsigned_digits(s: Seq<char>) -> Seq<char> {
    if s.len() > 0 && s[0] == '+' {
        s.drop_first()
    } else {
        s
    }
}

/// What `usize::from_str` accepts: an optional `+` followed by at least one
/// decimal digit and nothing else, of a value that fits in a `usize`.
pub open spec fn parsed_usize(s: Seq<char>) -> Option<usize> {
    let d = unsigned_digits(s);
    if d.len() > 0 && (forall|i: int| 0 <= i < d.len() ==> is_digit(#[trigger] d[i])) && decimal_value(d)
        <= usize::MAX {
        Some(decimal_value(d) as usize)
    } else {
        None
    }
}

/// Calls `str::parse::<usize>`: as std documents for unsigned integers, an
/// optional `+` followed by decimal digits only, within range; anything else
/// (empty, other characters, white space, overflow) is an error, given here as
/// `None`.
#[verifier::external_body]
pub(crate) fn parse_usize(s: &str) -> (r: Option<usize>)
    ensures
        r == parsed_usize(s@),
{
    s.parse::<usize>().ok()
}

} // verus!
