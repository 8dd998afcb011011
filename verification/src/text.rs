//! Character-level string utilities with exact specifications.
//!
//! Strings are handled as sequences of `char`s (their view); the executable
//! helpers work on `Vec<char>` and convert at the edges.

use vstd::prelude::*;
use vstd::std_specs::iter::IteratorSpec;

verus! {

broadcast use vstd::string::group_string_axioms;

// ---------------------------------------------------------------------------
// Conversions between strings and character vectors
// ---------------------------------------------------------------------------

/// The characters of `s`, in order.
pub fn chars_of(s: &str) -> (v: Vec<char>)
    ensures
        v@ == s@,
{
    let mut v: Vec<char> = Vec::new();
    for c in it: s.chars()
        invariant
            v@ == it.seq().take(it.index()),
    {
        v.push(c);
    }
    v
}

/// `String::push`: appends one character.
#[verifier::external_body]
pub(crate) fn push_char(s: &mut String, c: char)
    ensures
        final(s)@ == old(s)@.push(c),
{
    s.push(c);
}

/// `String::push_str`: appends a string slice.
#[verifier::external_body]
pub(crate) fn push_str(s: &mut String, t: &str)
    ensures
        final(s)@ == old(s)@ + t@,
{
    s.push_str(t);
}

/// A string holding the text of `s`.
pub fn owned(s: &str) -> (r: String)
    ensures
        r@ == s@,
{
    let mut r = String::new();
    push_str(&mut r, s);
    r
}

/// A `String` holding exactly the characters of `v`.
pub fn string_of(v: &Vec<char>) -> (s: String)
    ensures
        s@ == v@,
{
    let mut s = String::new();
    let mut i: usize = 0;
    while i < v.len()
        invariant
            i <= v.len(),
            s@ == v@.take(i as int),
        decreases v.len() - i,
    {
        push_char(&mut s, v[i]);
        i = i + 1;
        assert(s@ =~= v@.take(i as int));
    }
    assert(v@.take(v.len() as int) =~= v@);
    s
}

/// Appends the characters of `t` to `v`.
pub fn extend_chars(v: &mut Vec<char>, t: &Vec<char>)
    ensures
        final(v)@ == old(v)@ + t@,
{
    let mut i: usize = 0;
    while i < t.len()
        invariant
            i <= t.len(),
            v@ == old(v)@ + t@.take(i as int),
        decreases t.len() - i,
    {
        v.push(t[i]);
        i = i + 1;
        assert(v@ =~= old(v)@ + t@.take(i as int));
    }
    assert(t@.take(t.len() as int) =~= t@);
}

/// A copy of `v`.
pub fn copy_chars(v: &Vec<char>) -> (r: Vec<char>)
    ensures
        r@ == v@,
{
    let r = v.clone();
    proof {
        assert(r@ =~= v@);
    }
    r
}

// ---------------------------------------------------------------------------
// Prefixes, suffixes and substrings
// ---------------------------------------------------------------------------

/// `p` occurs in `s` starting at position `i`.
pub open spec fn occurs_at(s: Seq<char>, p: Seq<char>, i: int) -> bool {
    0 <= i && i + p.len() <= s.len() && s.subrange(i, i + p.len()) == p
}

/// `p` occurs somewhere in `s` (`str::contains`).
pub open spec fn contains_spec(s: Seq<char>, p: Seq<char>) -> bool {
    exists|i: int| occurs_at(s, p, i)
}

/// Smallest position at or after `from` where `p` occurs in `s`.
pub open spec fn find_from(s: Seq<char>, p: Seq<char>, from: int) -> Option<int>
    decreases s.len() + 1 - from,
{
    if from < 0 || from + p.len() > s.len() {
        None
    } else if occurs_at(s, p, from) {
        Some(from)
    } else {
        find_from(s, p, from + 1)
    }
}

/// Position of the first occurrence of `p` in `s` (`str::find`).
pub open spec fn find_spec(s: Seq<char>, p: Seq<char>) -> Option<int> {
    find_from(s, p, 0)
}

/// Whether `p` is a prefix of `s`.
pub fn has_prefix(s: &Vec<char>, p: &Vec<char>) -> (r: bool)
    ensures
        r == p@.is_prefix_of(s@),
{
    occurs_at_exec(s, p, 0)
}

/// Whether `p` is a suffix of `s`.
pub fn has_suffix(s: &Vec<char>, p: &Vec<char>) -> (r: bool)
    ensures
        r == p@.is_suffix_of(s@),
{
    if p.len() > s.len() {
        return false;
    }
    let start = s.len() - p.len();
    let r = occurs_at_exec(s, p, start);
    proof {
        if r {
            assert forall|i: int| 0 <= i < p@.len() implies p@[i] == s@[s@.len() - p@.len() + i] by {
                assert(s@.subrange(start as int, start + p@.len())[i] == s@[start + i]);
            }
        } else {
            if p@.is_suffix_of(s@) {
                assert(s@.subrange(start as int, start + p@.len()) =~= p@);
            }
        }
    }
    r
}

/// Whether `p` occurs in `s` at position `i`.
pub fn occurs_at_exec(s: &Vec<char>, p: &Vec<char>, i: usize) -> (r: bool)
    ensures
        r == occurs_at(s@, p@, i as int),
        i == 0 ==> (r == p@.is_prefix_of(s@)),
{
    if p.len() > s.len() || i > s.len() - p.len() {
        return false;
    }
    let mut k: usize = 0;
    while k < p.len()
        invariant
            k <= p.len(),
            i + p.len() <= s.len(),
            forall|j: int| 0 <= j < k ==> s@[i + j] == p@[j],
        decreases p.len() - k,
    {
        if s[i + k] != p[k] {
            proof {
                assert(s@.subrange(i as int, i + p@.len())[k as int] == s@[i + k]);
            }
            return false;
        }
        k = k + 1;
    }
    proof {
        assert(s@.subrange(i as int, i + p@.len()) =~= p@);
    }
    true
}

/// Proof that `find_from` returns an occurrence that is the earliest at or
/// after `from`.
pub proof fn lemma_find_from(s: Seq<char>, p: Seq<char>, from: int)
    requires
        0 <= from,
    ensures
        find_from(s, p, from) matches Some(i) ==> (from <= i && occurs_at(s, p, i) && forall|j: int|
            from <= j < i ==> !occurs_at(s, p, j)),
        find_from(s, p, from) is None ==> forall|j: int| from <= j ==> !occurs_at(s, p, j),
    decreases s.len() + 1 - from,
{
    if from + p.len() > s.len() {
    } else if occurs_at(s, p, from) {
    } else {
        lemma_find_from(s, p, from + 1);
    }
}

/// First position of `p` in `s`, starting the search at `from`.
pub fn find_exec(s: &Vec<char>, p: &Vec<char>, from: usize) -> (r: Option<usize>)
    ensures
        r matches Some(i) ==> find_from(s@, p@, from as int) == Some(i as int) && occurs_at(
            s@,
            p@,
            i as int,
        ),
        r is None ==> find_from(s@, p@, from as int) is None,
{
    if p.len() > s.len() || from > s.len() - p.len() {
        return None;
    }
    let last = s.len() - p.len();
    let mut i = from;
    while i <= last
        invariant
            from <= i,
            last == s.len() - p.len(),
            find_from(s@, p@, from as int) == find_from(s@, p@, i as int),
        decreases last + 1 - i,
    {
        if occurs_at_exec(s, p, i) {
            return Some(i);
        }
        if i == last {
            proof {
                assert(find_from(s@, p@, i + 1) is None);
            }
            return None;
        }
        i = i + 1;
    }
    None
}

/// Whether `p` occurs anywhere in `s`.
pub fn contains_exec(s: &Vec<char>, p: &Vec<char>) -> (r: bool)
    ensures
        r == contains_spec(s@, p@),
{
    let f = find_exec(s, p, 0);
    proof {
        lemma_find_from(s@, p@, 0);
    }
    f.is_some()
}


// ---------------------------------------------------------------------------
// Trimming repeated patterns
// ---------------------------------------------------------------------------

/// `s` with every leading repetition of the non-empty pattern `p` removed
/// (`str::trim_start_matches`).
pub open spec fn trim_start_matches_spec(s: Seq<char>, p: Seq<char>) -> Seq<char>
    decreases s.len(),
{
    if p.len() > 0 && p.is_prefix_of(s) {
        trim_start_matches_spec(s.skip(p.len() as int), p)
    } else {
        s
    }
}

/// `s` with every trailing repetition of the non-empty pattern `p` removed
/// (`str::trim_end_matches`).
pub open spec fn trim_end_matches_spec(s: Seq<char>, p: Seq<char>) -> Seq<char>
    decreases s.len(),
{
    if p.len() > 0 && p.is_suffix_of(s) {
        trim_end_matches_spec(s.take(s.len() - p.len()), p)
    } else {
        s
    }
}

/// Removes every leading repetition of `p` from `s`.
pub fn trim_start_matches(s: &Vec<char>, p: &Vec<char>) -> (r: Vec<char>)
    requires
        p@.len() > 0,
    ensures
        r@ == trim_start_matches_spec(s@, p@),
{
    let mut start: usize = 0;
    let mut done = false;
    proof {
        assert(s@.skip(0) =~= s@);
    }
    while !done && start <= s.len() && p.len() <= s.len() - start
        invariant
            p@.len() > 0,
            start <= s.len(),
            trim_start_matches_spec(s@, p@) == trim_start_matches_spec(s@.skip(start as int), p@),
            done ==> !p@.is_prefix_of(s@.skip(start as int)),
        decreases s.len() - start + (if done { 0int } else { 1int }),
    {
        if !occurs_at_exec(s, p, start) {
            proof {
                assert(!p@.is_prefix_of(s@.skip(start as int))) by {
                    if p@.is_prefix_of(s@.skip(start as int)) {
                        assert(s@.subrange(start as int, start + p@.len()) =~= p@);
                    }
                }
            }
            done = true;
        } else {
            proof {
                let rest = s@.skip(start as int);
                assert(p@.is_prefix_of(rest)) by {
                    assert forall|j: int| 0 <= j < p@.len() implies p@[j] == rest[j] by {
                        assert(s@.subrange(start as int, start + p@.len())[j] == s@[start + j]);
                    }
                }
                assert(rest.skip(p@.len() as int) =~= s@.skip(start + p@.len()));
            }
            start = start + p.len();
        }
    }
    let r = slice_from(s, start);
    r
}

/// The characters of `s` from position `start` on.
pub fn slice_from(s: &Vec<char>, start: usize) -> (r: Vec<char>)
    requires
        start <= s@.len(),
    ensures
        r@ == s@.skip(start as int),
{
    slice_range(s, start, s.len())
}

/// The characters of `s` in positions `[start, end)`.
pub fn slice_range(s: &Vec<char>, start: usize, end: usize) -> (r: Vec<char>)
    requires
        start <= end <= s@.len(),
    ensures
        r@ == s@.subrange(start as int, end as int),
{
    let mut r: Vec<char> = Vec::new();
    let mut i = start;
    while i < end
        invariant
            start <= i <= end,
            end <= s@.len(),
            r@ == s@.subrange(start as int, i as int),
        decreases end - i,
    {
        r.push(s[i]);
        i = i + 1;
        assert(r@ =~= s@.subrange(start as int, i as int));
    }
    r
}

/// Removes every trailing repetition of `p` from `s`.
pub fn trim_end_matches(s: &Vec<char>, p: &Vec<char>) -> (r: Vec<char>)
    requires
        p@.len() > 0,
    ensures
        r@ == trim_end_matches_spec(s@, p@),
{
    let mut end: usize = s.len();
    let mut done = false;
    proof {
        assert(s@.take(s@.len() as int) =~= s@);
    }
    while !done && p.len() <= end
        invariant
            p@.len() > 0,
            end <= s.len(),
            trim_end_matches_spec(s@, p@) == trim_end_matches_spec(s@.take(end as int), p@),
            done ==> !p@.is_suffix_of(s@.take(end as int)),
        decreases end + (if done { 0int } else { 1int }),
    {
        if !occurs_at_exec(s, p, end - p.len()) {
            proof {
                let pre = s@.take(end as int);
                if p@.is_suffix_of(pre) {
                    assert(s@.subrange(end - p@.len(), end as int) =~= p@) by {
                        assert forall|j: int| 0 <= j < p@.len() implies s@.subrange(
                            end - p@.len(),
                            end as int,
                        )[j] == p@[j] by {
                            assert(pre[pre.len() - p@.len() + j] == s@[end - p@.len() + j]);
                        }
                    }
                }
            }
            done = true;
        } else {
            proof {
                let pre = s@.take(end as int);
                assert(p@.is_suffix_of(pre)) by {
                    assert forall|j: int| 0 <= j < p@.len() implies p@[j] == pre[pre.len()
                        - p@.len() + j] by {
                        assert(s@.subrange(end - p@.len(), end as int)[j] == s@[end - p@.len()
                            + j]);
                    }
                }
                assert(pre.take(pre.len() - p@.len()) =~= s@.take(end - p@.len()));
            }
            end = end - p.len();
        }
    }
    proof {
        assert(s@.subrange(0, end as int) =~= s@.take(end as int));
    }
    slice_range(s, 0, end)
}

// ---------------------------------------------------------------------------
// Searching for a character from the right
// ---------------------------------------------------------------------------

/// Position of the last occurrence of `c` in `s` (`str::rfind` with a char).
pub open spec fn rfind_spec(s: Seq<char>, c: char) -> Option<int>
    decreases s.len(),
{
    if s.len() == 0 {
        None
    } else if s.last() == c {
        Some(s.len() - 1)
    } else {
        rfind_spec(s.drop_last(), c)
    }
}

/// Last position of `c` in `s`.
pub fn rfind_char(s: &Vec<char>, c: char) -> (r: Option<usize>)
    ensures
        r matches Some(i) ==> rfind_spec(s@, c) == Some(i as int) && i < s@.len() && s@[i as int]
            == c,
        r is None ==> rfind_spec(s@, c) is None,
{
    let mut end = s.len();
    proof {
        assert(s@.take(s@.len() as int) =~= s@);
    }
    while end > 0
        invariant
            end <= s.len(),
            rfind_spec(s@, c) == rfind_spec(s@.take(end as int), c),
        decreases end,
    {
        proof {
            assert(s@.take(end as int).drop_last() =~= s@.take(end - 1));
        }
        if s[end - 1] == c {
            return Some(end - 1);
        }
        end = end - 1;
    }
    None
}


// ---------------------------------------------------------------------------
// Whitespace
// ---------------------------------------------------------------------------

/// The Unicode `White_Space` property, which `char::is_whitespace` tests.
pub open spec fn is_white_space(c: char) -> bool {
    let u = c as u32;
    ||| 0x09 <= u <= 0x0d
    ||| u == 0x20
    ||| u == 0x85
    ||| u == 0xa0
    ||| u == 0x1680
    ||| 0x2000 <= u <= 0x200a
    ||| u == 0x2028
    ||| u == 0x2029
    ||| u == 0x202f
    ||| u == 0x205f
    ||| u == 0x3000
}

/// Whether `c` is whitespace (what `char::is_whitespace` tests): true
/// exactly for the characters with the Unicode `White_Space` property.
pub fn is_whitespace(c: char) -> (r: bool)
    ensures
        r == is_white_space(c),
{
    let u = c as u32;
    (0x09 <= u && u <= 0x0d) || u == 0x20 || u == 0x85 || u == 0xa0 || u == 0x1680 || (0x2000 <= u
        && u <= 0x200a) || u == 0x2028 || u == 0x2029 || u == 0x202f || u == 0x205f || u == 0x3000
}

/// `s` without its leading whitespace.
pub open spec fn trim_start_spec(s: Seq<char>) -> Seq<char>
    decreases s.len(),
{
    if s.len() > 0 && is_white_space(s[0]) {
        trim_start_spec(s.drop_first())
    } else {
        s
    }
}

/// `s` without its trailing whitespace.
pub open spec fn trim_end_spec(s: Seq<char>) -> Seq<char>
    decreases s.len(),
{
    if s.len() > 0 && is_white_space(s.last()) {
        trim_end_spec(s.drop_last())
    } else {
        s
    }
}

/// `s` without leading and trailing whitespace (`str::trim`).
pub open spec fn trim_spec(s: Seq<char>) -> Seq<char> {
    trim_end_spec(trim_start_spec(s))
}

/// Removes leading and trailing whitespace.
pub fn trim(s: &Vec<char>) -> (r: Vec<char>)
    ensures
        r@ == trim_spec(s@),
{
    let mut start: usize = 0;
    proof {
        assert(s@.skip(0) =~= s@);
    }
    while start < s.len() && is_whitespace(s[start])
        invariant
            start <= s.len(),
            trim_start_spec(s@) == trim_start_spec(s@.skip(start as int)),
        decreases s.len() - start,
    {
        proof {
            assert(s@.skip(start as int).drop_first() =~= s@.skip(start + 1));
        }
        start = start + 1;
    }
    let mut end: usize = s.len();
    proof {
        assert(s@.subrange(start as int, s@.len() as int) =~= s@.skip(start as int));
    }
    while end > start && is_whitespace(s[end - 1])
        invariant
            start <= end <= s.len(),
            trim_spec(s@) == trim_end_spec(s@.subrange(start as int, end as int)),
        decreases end,
    {
        proof {
            assert(s@.subrange(start as int, end as int).drop_last() =~= s@.subrange(
                start as int,
                end - 1,
            ));
        }
        end = end - 1;
    }
    slice_range(s, start, end)
}

/// Removes leading and trailing whitespace from a string.
pub fn trim_str(s: &str) -> (r: String)
    ensures
        r@ == trim_spec(s@),
{
    let v = chars_of(s);
    let t = trim(&v);
    string_of(&t)
}

/// The first `n` characters of `s` (all of them if it is shorter).
pub open spec fn take_spec(s: Seq<char>, n: nat) -> Seq<char> {
    if n < s.len() {
        s.take(n as int)
    } else {
        s
    }
}

/// At most the first `n` characters of `s`
/// (`s.chars().take(n).collect::<String>()`).
pub fn take_chars(s: &str, n: usize) -> (r: String)
    ensures
        r@ == take_spec(s@, n as nat),
{
    let v = chars_of(s);
    if n < v.len() {
        let w = slice_range(&v, 0, n);
        proof {
            assert(s@.subrange(0, n as int) =~= s@.take(n as int));
        }
        string_of(&w)
    } else {
        string_of(&v)
    }
}

// ---------------------------------------------------------------------------
// Splitting
// ---------------------------------------------------------------------------

/// The character sequences of a vector of character vectors.
pub open spec fn views(v: Seq<Vec<char>>) -> Seq<Seq<char>> {
    v.map_values(|x: Vec<char>| x@)
}

/// The pieces of `s` between occurrences of the separator `c`
/// (`str::split` with a char): one more piece than there are separators.
pub open spec fn split_spec(s: Seq<char>, c: char) -> Seq<Seq<char>>
    decreases s.len(),
{
    if s.len() == 0 {
        seq![Seq::<char>::empty()]
    } else {
        let r = split_spec(s.drop_last(), c);
        if s.last() == c {
            r.push(Seq::<char>::empty())
        } else {
            r.update(r.len() - 1, r.last().push(s.last()))
        }
    }
}

/// `split_spec` always yields at least one piece.
pub proof fn lemma_split_nonempty(s: Seq<char>, c: char)
    ensures
        split_spec(s, c).len() >= 1,
    decreases s.len(),
{
    if s.len() > 0 {
        lemma_split_nonempty(s.drop_last(), c);
    }
}

/// Splits `s` at every occurrence of `c`.
pub fn split_char(s: &Vec<char>, c: char) -> (r: Vec<Vec<char>>)
    ensures
        views(r@) == split_spec(s@, c),
{
    let mut done: Vec<Vec<char>> = Vec::new();
    let mut cur: Vec<char> = Vec::new();
    let mut i: usize = 0;
    proof {
        assert(s@.take(0) =~= Seq::<char>::empty());
        assert(views(done@).push(cur@) =~= split_spec(s@.take(0), c));
    }
    while i < s.len()
        invariant
            i <= s.len(),
            views(done@).push(cur@) == split_spec(s@.take(i as int), c),
        decreases s.len() - i,
    {
        let ghost prev = s@.take(i as int);
        proof {
            assert(s@.take(i + 1).drop_last() =~= prev);
            lemma_split_nonempty(prev, c);
        }
        if s[i] == c {
            proof {
                assert(views(done@.push(cur)) =~= views(done@).push(cur@));
            }
            done.push(cur);
            cur = Vec::new();
            proof {
                assert(views(done@).push(cur@) =~= split_spec(s@.take(i + 1), c));
            }
        } else {
            cur.push(s[i]);
            proof {
                assert(views(done@).push(cur@) =~= split_spec(s@.take(i + 1), c));
            }
        }
        i = i + 1;
    }
    proof {
        assert(s@.take(s@.len() as int) =~= s@);
        assert(views(done@.push(cur)) =~= views(done@).push(cur@));
    }
    done.push(cur);
    done
}

/// `l` without one trailing carriage return, if it has one.
pub open spec fn strip_cr(l: Seq<char>) -> Seq<char> {
    if l.len() > 0 && l.last() == '\r' {
        l.drop_last()
    } else {
        l
    }
}

/// The lines of `s` (`str::lines`): the pieces ended by a line feed, each
/// without that line feed and without one carriage return before it, then
/// the unterminated rest if it is not empty.
pub open spec fn lines_spec(s: Seq<char>) -> Seq<Seq<char>> {
    let p = split_spec(s, '\n');
    let ended = p.drop_last().map_values(|l: Seq<char>| strip_cr(l));
    if p.last().len() == 0 {
        ended
    } else {
        ended.push(p.last())
    }
}

/// Removes one trailing carriage return.
pub fn strip_cr_exec(l: &Vec<char>) -> (r: Vec<char>)
    ensures
        r@ == strip_cr(l@),
{
    if l.len() > 0 && l[l.len() - 1] == '\r' {
        let r = slice_range(l, 0, l.len() - 1);
        proof {
            assert(r@ =~= l@.drop_last());
        }
        r
    } else {
        copy_chars(l)
    }
}

/// The lines of `s`.
pub fn lines(s: &Vec<char>) -> (r: Vec<Vec<char>>)
    ensures
        views(r@) == lines_spec(s@),
{
    let mut pieces = split_char(s, '\n');
    proof {
        lemma_split_nonempty(s@, '\n');
    }
    let ghost p = views(pieces@);
    let last = pieces.pop().unwrap();
    proof {
        assert(views(pieces@) =~= p.drop_last());
    }
    let mut r: Vec<Vec<char>> = Vec::new();
    let mut i: usize = 0;
    while i < pieces.len()
        invariant
            i <= pieces.len(),
            views(pieces@) == p.drop_last(),
            views(r@) == p.drop_last().take(i as int).map_values(|l: Seq<char>| strip_cr(l)),
        decreases pieces.len() - i,
    {
        let l = strip_cr_exec(&pieces[i]);
        proof {
            assert(views(pieces@)[i as int] == pieces@[i as int]@);
            assert(p.drop_last()[i as int] == pieces@[i as int]@);
            let goal = p.drop_last().take(i + 1).map_values(|l: Seq<char>| strip_cr(l));
            let before = p.drop_last().take(i as int).map_values(|l: Seq<char>| strip_cr(l));
            assert forall|k: int| 0 <= k < i implies #[trigger] goal[k] == before[k] by {
                assert(p.drop_last().take(i + 1)[k] == p.drop_last().take(i as int)[k]);
            }
            assert(goal[i as int] == strip_cr(p.drop_last()[i as int]));
            let after = views(r@.push(l));
            assert(views(r@).len() == r@.len());
            assert(before.len() == i);
            assert(r@.len() == i);
            assert forall|k: int| 0 <= k < i implies #[trigger] after[k] == before[k] by {
                assert(after[k] == r@.push(l)[k]@);
                assert(r@.push(l)[k] == r@[k]);
                assert(views(r@)[k] == r@[k]@);
            }
            assert(after[i as int] == l@);
            assert(after =~= goal);
        }
        r.push(l);
        i = i + 1;
    }
    proof {
        assert(p.drop_last().take(pieces.len() as int) =~= p.drop_last());
    }
    if last.len() > 0 {
        proof {
            assert(views(r@.push(last)) =~= views(r@).push(last@));
        }
        r.push(last);
    }
    r
}

/// The whitespace-separated words of `s` (`str::split_whitespace`).
pub open spec fn words_spec(s: Seq<char>) -> Seq<Seq<char>>
    decreases s.len(),
{
    if s.len() == 0 {
        Seq::empty()
    } else {
        let r = words_spec(s.drop_last());
        if is_white_space(s.last()) {
            r
        } else if s.len() >= 2 && !is_white_space(s[s.len() - 2]) {
            r.update(r.len() - 1, r.last().push(s.last()))
        } else {
            r.push(seq![s.last()])
        }
    }
}

/// The words of `s`, in order.
pub fn words(s: &Vec<char>) -> (r: Vec<Vec<char>>)
    ensures
        views(r@) == words_spec(s@),
{
    let mut done: Vec<Vec<char>> = Vec::new();
    let mut cur: Vec<char> = Vec::new();
    let mut i: usize = 0;
    proof {
        assert(s@.take(0) =~= Seq::<char>::empty());
    }
    while i < s.len()
        invariant
            i <= s.len(),
            words_spec(s@.take(i as int)) == (if cur@.len() > 0 {
                views(done@).push(cur@)
            } else {
                views(done@)
            }),
            cur@.len() > 0 <==> (i > 0 && !is_white_space(s@[i - 1])),
        decreases s.len() - i,
    {
        let ghost prev = s@.take(i as int);
        proof {
            assert(s@.take(i + 1).drop_last() =~= prev);
        }
        if is_whitespace(s[i]) {
            if cur.len() > 0 {
                proof {
                    assert(views(done@.push(cur)) =~= views(done@).push(cur@));
                }
                done.push(cur);
                cur = Vec::new();
            }
        } else {
            cur.push(s[i]);
            proof {
                if i > 0 && !is_white_space(s@[i - 1]) {
                    assert(views(done@).push(cur@) =~= words_spec(prev).update(
                        words_spec(prev).len() - 1,
                        words_spec(prev).last().push(s@[i as int]),
                    ));
                } else {
                    assert(cur@ =~= seq![s@[i as int]]);
                }
            }
        }
        i = i + 1;
    }
    proof {
        assert(s@.take(s@.len() as int) =~= s@);
    }
    if cur.len() > 0 {
        proof {
            assert(views(done@.push(cur)) =~= views(done@).push(cur@));
        }
        done.push(cur);
    }
    done
}

// ---------------------------------------------------------------------------
// Decimal numbers
// ---------------------------------------------------------------------------

/// The decimal digit character for `d < 10`.
pub open spec fn digit_char(d: int) -> char {
    (d + 48) as char
}

/// The decimal numeral of `n`, without sign or leading zeros.
pub open spec fn decimal(n: nat) -> Seq<char>
    decreases n,
{
    if n < 10 {
        seq![digit_char(n as int)]
    } else {
        decimal(n / 10) + seq![digit_char((n % 10) as int)]
    }
}

/// Appends the decimal numeral of `n` to `out`.
pub fn push_decimal(out: &mut Vec<char>, n: u64)
    ensures
        final(out)@ == old(out)@ + decimal(n as nat),
    decreases n,
{
    if n >= 10 {
        push_decimal(out, n / 10);
    }
    let d = (n % 10) as u8;
    let c = (48u8 + d) as char;
    proof {
        assert(c == digit_char((n % 10) as int));
    }
    out.push(c);
    proof {
        if n >= 10 {
            assert(old(out)@ + decimal((n / 10) as nat) + seq![c] =~= old(out)@ + decimal(
                n as nat,
            ));
        } else {
            assert(old(out)@.push(c) =~= old(out)@ + decimal(n as nat));
        }
    }
}

/// The decimal numeral of `n` as a string.
pub fn decimal_string(n: u64) -> (s: String)
    ensures
        s@ == decimal(n as nat),
{
    let mut v: Vec<char> = Vec::new();
    push_decimal(&mut v, n);
    proof {
        assert(v@ =~= decimal(n as nat));
    }
    string_of(&v)
}

/// The character is an ASCII decimal digit.
pub open spec fn is_digit(c: char) -> bool {
    '0' <= c <= '9'
}

/// The value of a sequence of decimal digits.
pub open spec fn digits_value(d: Seq<char>) -> nat
    decreases d.len(),
{
    if d.len() == 0 {
        0
    } else {
        digits_value(d.drop_last()) * 10 + ((d.last() as int - 48) as nat)
    }
}

/// The digits after an optional leading `+` that `str::parse` accepts for an
/// unsigned integer (the sign alone is not a number).
pub open spec fn unsigned_digits(s: Seq<char>) -> Seq<char> {
    if s.len() > 1 && s[0] == '+' {
        s.drop_first()
    } else {
        s
    }
}

/// `str::parse` for an unsigned integer type whose largest value is `max`:
/// an optional `+`, then one or more decimal digits whose value does not
/// exceed `max`.
pub open spec fn parse_unsigned(s: Seq<char>, max: nat) -> Option<nat> {
    let d = unsigned_digits(s);
    if d.len() > 0 && (forall|i: int| 0 <= i < d.len() ==> is_digit(#[trigger] d[i]))
        && digits_value(d) <= max {
        Some(digits_value(d))
    } else {
        None
    }
}

/// Prefixes of a digit string are worth no more than the whole.
pub proof fn lemma_digits_value_monotone(d: Seq<char>, k: int)
    requires
        0 <= k <= d.len(),
        forall|i: int| 0 <= i < d.len() ==> is_digit(#[trigger] d[i]),
    ensures
        digits_value(d.take(k)) <= digits_value(d),
    decreases d.len() - k,
{
    if k < d.len() {
        lemma_digits_value_monotone(d, k + 1);
        assert(d.take(k + 1).drop_last() =~= d.take(k));
    } else {
        assert(d.take(k) =~= d);
    }
}

/// Parses an unsigned decimal number no larger than `max`.
pub fn parse_unsigned_exec(s: &Vec<char>, max: u64) -> (r: Option<u64>)
    ensures
        r matches Some(n) ==> parse_unsigned(s@, max as nat) == Some(n as nat),
        r is None ==> parse_unsigned(s@, max as nat) is None,
{
    let start: usize = if s.len() > 1 && s[0] == '+' { 1 } else { 0 };
    let ghost d = unsigned_digits(s@);
    proof {
        assert(d =~= s@.skip(start as int));
    }
    if start >= s.len() {
        return None;
    }
    let mut acc: u64 = 0;
    let mut i = start;
    while i < s.len()
        invariant
            start <= i <= s.len(),
            d == s@.skip(start as int),
            d == unsigned_digits(s@),
            acc as nat == digits_value(d.take(i - start)),
            acc <= max,
            forall|k: int| 0 <= k < i - start ==> is_digit(#[trigger] d[k]),
        decreases s.len() - i,
    {
        let c = s[i];
        proof {
            assert(d.take(i - start + 1).drop_last() =~= d.take(i - start));
            assert(d[i - start] == s@[i as int]);
            assert(d.take(i - start + 1).last() == c);
        }
        if !('0' <= c && c <= '9') {
            proof {
                assert(!is_digit(d[i - start]));
                assert(!(forall|k: int| 0 <= k < d.len() ==> is_digit(#[trigger] d[k])));
            }
            return None;
        }
        let v = (c as u32 - 48) as u64;
        let next: u128 = acc as u128 * 10 + v as u128;
        proof {
            assert(digits_value(d.take(i - start + 1)) == next);
        }
        if next > max as u128 {
            proof {
                if forall|k: int| 0 <= k < d.len() ==> is_digit(#[trigger] d[k]) {
                    lemma_digits_value_monotone(d, i - start + 1);
                    assert(digits_value(d) > max);
                }
            }
            return None;
        }
        acc = next as u64;
        i = i + 1;
    }
    proof {
        assert(d.take(s@.len() - start) =~= d);
    }
    Some(acc)
}

/// Appends the characters of `t` to `v`.
pub fn push_text(v: &mut Vec<char>, t: &str)
    ensures
        final(v)@ == old(v)@ + t@,
{
    let c = chars_of(t);
    extend_chars(v, &c);
}

// ---------------------------------------------------------------------------
// File names
// ---------------------------------------------------------------------------

/// Unicode `Alphabetic` or `Numeric`, which `char::is_alphanumeric` tests.
pub uninterp spec fn alphanumeric(c: char) -> bool;

/// An ASCII letter or digit.
pub open spec fn ascii_alphanumeric(c: char) -> bool {
    ('a' <= c <= 'z') || ('A' <= c <= 'Z') || ('0' <= c <= '9')
}

/// `char::is_alphanumeric`. Its result is named by `alphanumeric`; among
/// ASCII characters exactly the letters and digits are alphanumeric.
/// Which other characters are is left to the Unicode tables.
#[verifier::external_body]
pub(crate) fn is_alphanumeric(c: char) -> (r: bool)
    ensures
        r == alphanumeric(c),
        (c as u32) < 128 ==> (r <==> ascii_alphanumeric(c)),
{
    c.is_alphanumeric()
}

/// The character kept in a file-name-safe topic: itself if alphanumeric or
/// `-`, otherwise `_`.
pub open spec fn safe_char(c: char) -> char {
    if alphanumeric(c) || c == '-' {
        c
    } else {
        '_'
    }
}

/// `t` with every character that is neither alphanumeric nor `-` replaced
/// by `_`.
pub open spec fn safe_name_spec(t: Seq<char>) -> Seq<char> {
    t.map_values(|c: char| safe_char(c))
}

/// Replaces every character of `t` that is neither alphanumeric nor `-`
/// with `_`.
pub fn safe_name(t: &str) -> (r: String)
    ensures
        r@ == safe_name_spec(t@),
{
    let v = chars_of(t);
    let mut out: Vec<char> = Vec::new();
    let mut i: usize = 0;
    while i < v.len()
        invariant
            i <= v.len(),
            v@ == t@,
            out@ == v@.take(i as int).map_values(|c: char| safe_char(c)),
        decreases v.len() - i,
    {
        let c = v[i];
        let k = if is_alphanumeric(c) || c == '-' { c } else { '_' };
        out.push(k);
        i = i + 1;
        proof {
            assert(out@ =~= v@.take(i as int).map_values(|c: char| safe_char(c)));
        }
    }
    proof {
        assert(v@.take(v@.len() as int) =~= v@);
    }
    string_of(&out)
}

/// The extension of a file name (`Path::extension`): what follows its last
/// `.`, unless that dot is the name's first character.
pub open spec fn extension_spec(name: Seq<char>) -> Option<Seq<char>> {
    match rfind_spec(name, '.') {
        Some(i) => if i > 0 {
            Some(name.skip(i + 1))
        } else {
            None
        },
        None => None,
    }
}

/// The extension of a file name, or `None`.
pub fn extension(name: &str) -> (r: Option<String>)
    ensures
        match r {
            Some(e) => extension_spec(name@) == Some(e@),
            None => extension_spec(name@) is None,
        },
{
    let v = chars_of(name);
    match rfind_char(&v, '.') {
        Some(i) => if i > 0 {
            proof {
                assert(v@.len() == v.len());
            }
            let e = slice_from(&v, i + 1);
            Some(string_of(&e))
        } else {
            None
        },
        None => None,
    }
}

/// Whether two strings have the same characters.
pub fn same_text(a: &str, b: &str) -> (r: bool)
    ensures
        r == (a@ == b@),
{
    let x = chars_of(a);
    let y = chars_of(b);
    if x.len() != y.len() {
        return false;
    }
    let r = has_prefix(&x, &y);
    proof {
        if r {
            assert(x@ =~= y@);
        }
    }
    r
}

/// The name of a `.json` file (its extension is exactly `json`).
pub open spec fn is_json_name(name: Seq<char>) -> bool {
    extension_spec(name) == Some("json"@)
}

/// Whether `name` names a `.json` file.
pub fn is_json_file(name: &str) -> (r: bool)
    ensures
        r == is_json_name(name@),
{
    match extension(name) {
        Some(e) => same_text(e.as_str(), "json"),
        None => false,
    }
}

/// A topic from a file name: the name without its trailing `.json`
/// repetitions.
pub open spec fn topic_of_name(name: Seq<char>) -> Seq<char> {
    trim_end_matches_spec(name, ".json"@)
}

/// The topic a message file stands for: its name without trailing `.json`
/// repetitions.
pub fn topic_from_file_name(name: &str) -> (r: String)
    ensures
        r@ == topic_of_name(name@),
{
    let v = chars_of(name);
    let p = chars_of(".json");
    proof {
        reveal_strlit(".json");
    }
    let t = trim_end_matches(&v, &p);
    string_of(&t)
}

/// Whether `s` starts with `p`.
pub fn starts_with(s: &str, p: &str) -> (r: bool)
    ensures
        r == p@.is_prefix_of(s@),
{
    let x = chars_of(s);
    let y = chars_of(p);
    has_prefix(&x, &y)
}

/// Whether `s` ends with `p`.
pub fn ends_with(s: &str, p: &str) -> (r: bool)
    ensures
        r == p@.is_suffix_of(s@),
{
    let x = chars_of(s);
    let y = chars_of(p);
    has_suffix(&x, &y)
}

/// Whether `p` occurs in `s`.
pub fn contains(s: &str, p: &str) -> (r: bool)
    ensures
        r == contains_spec(s@, p@),
{
    let x = chars_of(s);
    let y = chars_of(p);
    contains_exec(&x, &y)
}

/// `s` without any `c` characters.
pub open spec fn without_char(s: Seq<char>, c: char) -> Seq<char>
    decreases s.len(),
{
    if s.len() == 0 {
        s
    } else if s.last() == c {
        without_char(s.drop_last(), c)
    } else {
        without_char(s.drop_last(), c).push(s.last())
    }
}

/// Removes every `c` from `s`.
pub fn remove_char(s: &str, c: char) -> (r: String)
    ensures
        r@ == without_char(s@, c),
{
    let v = chars_of(s);
    let mut out: Vec<char> = Vec::new();
    let mut i: usize = 0;
    proof {
        assert(v@.take(0) =~= Seq::<char>::empty());
    }
    while i < v.len()
        invariant
            i <= v.len(),
            v@ == s@,
            out@ == without_char(v@.take(i as int), c),
        decreases v.len() - i,
    {
        proof {
            assert(v@.take(i + 1).drop_last() =~= v@.take(i as int));
        }
        if v[i] != c {
            out.push(v[i]);
        }
        i = i + 1;
    }
    proof {
        assert(v@.take(v@.len() as int) =~= v@);
    }
    string_of(&out)
}

/// The UTF-8 text of `bytes` with each malformed sequence replaced by
/// U+FFFD, as `String::from_utf8_lossy` gives it.
pub uninterp spec fn lossy_text(bytes: Seq<u8>) -> Seq<char>;

/// `String::from_utf8_lossy`, made owned. Its result is named by
/// `lossy_text`; for valid UTF-8 it is the decoded text. How malformed
/// sequences are replaced is not stated.
#[verifier::external_body]
pub(crate) fn utf8_lossy(bytes: &[u8]) -> (s: String)
    ensures
        s@ == lossy_text(bytes@),
        vstd::utf8::valid_utf8(bytes@) ==> s@ == vstd::utf8::decode_utf8(bytes@),
{
    String::from_utf8_lossy(bytes).into_owned()
}

/// The lines joined with `sep` between them.
pub open spec fn join_spec(ls: Seq<Seq<char>>, sep: Seq<char>) -> Seq<char>
    decreases ls.len(),
{
    if ls.len() == 0 {
        Seq::empty()
    } else if ls.len() == 1 {
        ls[0]
    } else {
        join_spec(ls.drop_last(), sep) + sep + ls.last()
    }
}

} // verus!
