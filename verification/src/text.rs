//! Character-level text primitives: classification, line and word
//! splitting, and searching, all over sequences of `char`.
use vstd::prelude::*;

verus! {

/// The characters of `s`, in order.
pub fn chars_of(s: &str) -> (res: Vec<char>)
    ensures
        res@ == s@,
{
    let mut res: Vec<char> = Vec::new();
    for c in it: s.chars()
        invariant
            res@ == it.seq().take(it.index() as int),
    {
        res.push(c);
    }
    res
}

/// Unicode `White_Space`, the class that `char::is_whitespace` tests.
pub open spec fn is_space(c: char) -> bool {
    ||| c == ' '
    ||| ('\t' <= c && c <= '\r')
    ||| c == '\u{85}'
    ||| c == '\u{a0}'
    ||| c == '\u{1680}'
    ||| ('\u{2000}' <= c && c <= '\u{200a}')
    ||| c == '\u{2028}'
    ||| c == '\u{2029}'
    ||| c == '\u{202f}'
    ||| c == '\u{205f}'
    ||| c == '\u{3000}'
}

pub fn is_space_char(c: char) -> (r: bool)
    ensures
        r == is_space(c),
{
    c == ' ' || ('\t' <= c && c <= '\r') || c == '\u{85}' || c == '\u{a0}' || c == '\u{1680}' || (
    '\u{2000}' <= c && c <= '\u{200a}') || c == '\u{2028}' || c == '\u{2029}' || c == '\u{202f}'
        || c == '\u{205f}' || c == '\u{3000}'
}

/// Predicate: the character is a line feed.
pub open spec fn newline() -> spec_fn(char) -> bool {
    |c: char| c == '\n'
}

/// Predicate: the character is white space.
pub open spec fn space() -> spec_fn(char) -> bool {
    |c: char| is_space(c)
}

/// Predicate: the character is not white space.
pub open spec fn non_space() -> spec_fn(char) -> bool {
    |c: char| !is_space(c)
}

/// The first index `k >= i` with `p(s[k])`, or `s.len()` when there is none.
pub open spec fn first_from(s: Seq<char>, p: spec_fn(char) -> bool, i: int) -> int
    decreases s.len() - i,
{
    if i >= s.len() {
        s.len() as int
    } else if p(s[i]) {
        i
    } else {
        first_from(s, p, i + 1)
    }
}

/// The last index `k < j` with `p(s[k])`, or `-1` when there is none.
pub open spec fn last_before(s: Seq<char>, p: spec_fn(char) -> bool, j: int) -> int
    decreases j,
{
    if j <= 0 {
        -1
    } else if p(s[j - 1]) {
        j - 1
    } else {
        last_before(s, p, j - 1)
    }
}

pub proof fn lemma_first_from(s: Seq<char>, p: spec_fn(char) -> bool, i: int)
    requires
        0 <= i <= s.len(),
    ensures
        i <= first_from(s, p, i) <= s.len(),
        first_from(s, p, i) < s.len() ==> p(s[first_from(s, p, i)]),
        forall|k: int| i <= k < first_from(s, p, i) ==> !p(#[trigger] s[k]),
    decreases s.len() - i,
{
    if i < s.len() && !p(s[i]) {
        lemma_first_from(s, p, i + 1);
    }
}

/// `j` is the first index at or after `i` that satisfies `p`.
pub proof fn lemma_first_from_is(s: Seq<char>, p: spec_fn(char) -> bool, i: int, j: int)
    requires
        0 <= i <= j <= s.len(),
        forall|k: int| i <= k < j ==> !p(#[trigger] s[k]),
        j == s.len() || p(s[j]),
    ensures
        first_from(s, p, i) == j,
    decreases j - i,
{
    if i < j {
        lemma_first_from_is(s, p, i + 1, j);
    }
}

pub proof fn lemma_last_before(s: Seq<char>, p: spec_fn(char) -> bool, j: int)
    requires
        0 <= j <= s.len(),
    ensures
        -1 <= last_before(s, p, j) < j,
        last_before(s, p, j) >= 0 ==> p(s[last_before(s, p, j)]),
        forall|k: int| last_before(s, p, j) < k < j ==> !p(#[trigger] s[k]),
    decreases j,
{
    if j > 0 && !p(s[j - 1]) {
        lemma_last_before(s, p, j - 1);
    }
}

/// `k` is the last index before `j` that satisfies `p` (or `-1`).
pub proof fn lemma_last_before_is(s: Seq<char>, p: spec_fn(char) -> bool, j: int, k: int)
    requires
        -1 <= k < j <= s.len(),
        forall|m: int| k < m < j ==> !p(#[trigger] s[m]),
        k == -1 || p(s[k]),
    ensures
        last_before(s, p, j) == k,
    decreases j - k,
{
    if k < j - 1 {
        lemma_last_before_is(s, p, j - 1, k);
    }
}

/// A line with one trailing carriage return removed.
pub open spec fn strip_cr(line: Seq<char>) -> Seq<char> {
    if line.len() > 0 && line.last() == '\r' {
        line.drop_last()
    } else {
        line
    }
}

/// The lines of `s` from offset `i` on, as `str::lines` yields them: a line
/// ends at `\n`, which is removed together with a `\r` just before it; the
/// last line needs no line ending, and keeps a trailing `\r` when it has none.
pub open spec fn lines_from(s: Seq<char>, i: int) -> Seq<Seq<char>>
    decreases s.len() - i,
{
    if i < 0 || i >= s.len() {
        seq![]
    } else {
        let e = first_from(s, newline(), i);
        if e >= s.len() {
            seq![s.subrange(i, s.len() as int)]
        } else {
            proof {
                lemma_first_from(s, newline(), i);
            }
            seq![strip_cr(s.subrange(i, e))] + lines_from(s, e + 1)
        }
    }
}

/// The lines of `s` (`str::lines`).
pub open spec fn lines_of(s: Seq<char>) -> Seq<Seq<char>> {
    lines_from(s, 0)
}

/// The white-space separated words of `s` from offset `i` on
/// (`str::split_whitespace`): maximal non-empty runs of non-space characters.
pub open spec fn words_from(s: Seq<char>, i: int) -> Seq<Seq<char>>
    decreases s.len() - i,
{
    if i < 0 || i >= s.len() {
        seq![]
    } else if is_space(s[i]) {
        words_from(s, i + 1)
    } else {
        let e = first_from(s, space(), i);
        proof {
            lemma_first_from(s, space(), i);
            lemma_first_from(s, space(), i + 1);
        }
        seq![s.subrange(i, e)] + words_from(s, e)
    }
}

/// The white-space separated words of `s` (`str::split_whitespace`).
pub open spec fn words_of(s: Seq<char>) -> Seq<Seq<char>> {
    words_from(s, 0)
}

/// The contents of a sequence of character vectors.
pub open spec fn views(v: Seq<Vec<char>>) -> Seq<Seq<char>> {
    v.map_values(|x: Vec<char>| x@)
}

pub proof fn lemma_views_push(v: Seq<Vec<char>>, x: Vec<char>)
    ensures
        views(v.push(x)) == views(v).push(x@),
{
    assert(views(v.push(x)) =~= views(v).push(x@));
}

/// A copy of `s[i..j]`.
pub fn copy_range(s: &Vec<char>, i: usize, j: usize) -> (res: Vec<char>)
    requires
        i <= j <= s.len(),
    ensures
        res@ == s@.subrange(i as int, j as int),
{
    let mut res: Vec<char> = Vec::new();
    let mut k = i;
    while k < j
        invariant
            i <= k <= j <= s.len(),
            res@ == s@.subrange(i as int, k as int),
        decreases j - k,
    {
        res.push(s[k]);
        k = k + 1;
        assert(res@ =~= s@.subrange(i as int, k as int));
    }
    res
}

/// The lines of `s`, as `str::lines` splits them.
pub fn split_lines(s: &Vec<char>) -> (res: Vec<Vec<char>>)
    ensures
        views(res@) == lines_of(s@),
{
    let mut res: Vec<Vec<char>> = Vec::new();
    let mut i: usize = 0;
    while i < s.len()
        invariant
            0 <= i <= s.len(),
            views(res@) + lines_from(s@, i as int) == lines_of(s@),
        decreases s.len() - i,
    {
        let mut j = i;
        while j < s.len() && s[j] != '\n'
            invariant
                i <= j <= s.len(),
                forall|k: int| i <= k < j ==> s@[k] != '\n',
            decreases s.len() - j,
        {
            j = j + 1;
        }
        proof {
            assert forall|k: int| i <= k < j implies !newline()(#[trigger] s@[k]) by {}
            lemma_first_from_is(s@, newline(), i as int, j as int);
        }
        let ghost before = views(res@);
        if j == s.len() {
            let line = copy_range(s, i, j);
            proof {
                lemma_views_push(res@, line);
            }
            res.push(line);
            assert(views(res@) + lines_from(s@, j as int) =~= before + lines_from(s@, i as int));
            i = j;
        } else {
            let end = if j > i && s[j - 1] == '\r' {
                j - 1
            } else {
                j
            };
            let line = copy_range(s, i, end);
            assert(line@ =~= strip_cr(s@.subrange(i as int, j as int)));
            proof {
                lemma_views_push(res@, line);
            }
            res.push(line);
            assert(views(res@) + lines_from(s@, j + 1) =~= before + lines_from(s@, i as int));
            i = j + 1;
        }
    }
    res
}

/// The white-space separated words of `s`, as `str::split_whitespace`
/// yields them.
pub fn split_words(s: &Vec<char>) -> (res: Vec<Vec<char>>)
    ensures
        views(res@) == words_of(s@),
{
    let mut res: Vec<Vec<char>> = Vec::new();
    let mut i: usize = 0;
    while i < s.len()
        invariant
            0 <= i <= s.len(),
            views(res@) + words_from(s@, i as int) == words_of(s@),
        decreases s.len() - i,
    {
        if is_space_char(s[i]) {
            i = i + 1;
        } else {
            let mut j = i + 1;
            while j < s.len() && !is_space_char(s[j])
                invariant
                    i < j <= s.len(),
                    forall|k: int| i <= k < j ==> !is_space(s@[k]),
                decreases s.len() - j,
            {
                j = j + 1;
            }
            proof {
                assert forall|k: int| i <= k < j implies !space()(#[trigger] s@[k]) by {}
                lemma_first_from_is(s@, space(), i as int, j as int);
            }
            let ghost before = views(res@);
            let word = copy_range(s, i, j);
            proof {
                lemma_views_push(res@, word);
            }
            res.push(word);
            assert(views(res@) + words_from(s@, j as int) =~= before + words_from(s@, i as int));
            i = j;
        }
    }
    res
}

/// Predicate: the character is `c`.
pub open spec fn is_char(c: char) -> spec_fn(char) -> bool {
    |x: char| x == c
}

/// `s` begins with `p`.
pub open spec fn starts_with(s: Seq<char>, p: Seq<char>) -> bool {
    p.len() <= s.len() && s.subrange(0, p.len() as int) == p
}

/// `s` ends with `p`.
pub open spec fn ends_with(s: Seq<char>, p: Seq<char>) -> bool {
    p.len() <= s.len() && s.subrange(s.len() - p.len(), s.len() as int) == p
}

/// `p` occurs in `s` starting at index `k`.
pub open spec fn occurs_at(s: Seq<char>, p: Seq<char>, k: int) -> bool {
    0 <= k && k + p.len() <= s.len() && s.subrange(k, k + p.len()) == p
}

/// The first index `k >= i` where `p` occurs in `s` (`str::find` from `i`).
pub open spec fn find_from(s: Seq<char>, p: Seq<char>, i: int) -> Option<int>
    decreases s.len() + 1 - i,
{
    if i < 0 || i > s.len() || i + p.len() > s.len() {
        None
    } else if occurs_at(s, p, i) {
        Some(i)
    } else {
        find_from(s, p, i + 1)
    }
}

/// `p` occurs somewhere in `s` (`str::contains`).
pub open spec fn contains(s: Seq<char>, p: Seq<char>) -> bool {
    exists|k: int| occurs_at(s, p, k)
}

/// The text after the last `c` in `s`, all of `s` when `c` does not occur
/// (`s.rsplit(c).next()`).
pub open spec fn after_last(s: Seq<char>, c: char) -> Seq<char> {
    s.subrange(last_before(s, is_char(c), s.len() as int) + 1, s.len() as int)
}

/// `s` without trailing white space (`str::trim_end`).
pub open spec fn trim_end(s: Seq<char>) -> Seq<char> {
    s.subrange(0, last_before(s, non_space(), s.len() as int) + 1)
}

/// `s` without leading and trailing white space (`str::trim`).
pub open spec fn trim(s: Seq<char>) -> Seq<char> {
    let a = first_from(s, non_space(), 0);
    let b = last_before(s, non_space(), s.len() as int) + 1;
    if a < b {
        s.subrange(a, b)
    } else {
        seq![]
    }
}

/// Among the `c`-separated fields of `s[..j]`, taken from the back, the first
/// one that is not empty (`s[..j].rsplit(c).find(|f| !f.is_empty())`).
pub open spec fn last_field(s: Seq<char>, c: char, j: int) -> Option<Seq<char>>
    decreases j,
{
    if j <= 0 || j > s.len() {
        None
    } else {
        let k = last_before(s, is_char(c), j);
        proof {
            lemma_last_before(s, is_char(c), j);
        }
        if k + 1 < j {
            Some(s.subrange(k + 1, j))
        } else if k < 0 {
            None
        } else {
            last_field(s, c, k)
        }
    }
}

/// Whether `a` and `b` hold the same characters.
pub fn same_chars(a: &Vec<char>, b: &Vec<char>) -> (r: bool)
    ensures
        r == (a@ == b@),
{
    if a.len() != b.len() {
        return false;
    }
    let mut i: usize = 0;
    while i < a.len()
        invariant
            a.len() == b.len(),
            0 <= i <= a.len(),
            forall|k: int| 0 <= k < i ==> a@[k] == b@[k],
        decreases a.len() - i,
    {
        if a[i] != b[i] {
            return false;
        }
        i = i + 1;
    }
    assert(a@ =~= b@);
    true
}

/// Whether `p` occurs in `s` at index `k`.
pub fn occurs_at_exec(s: &Vec<char>, p: &Vec<char>, k: usize) -> (r: bool)
    ensures
        r == occurs_at(s@, p@, k as int),
{
    if k > s.len() || p.len() > s.len() - k {
        return false;
    }
    let mut i: usize = 0;
    while i < p.len()
        invariant
            k + p.len() <= s.len(),
            0 <= i <= p.len(),
            forall|m: int| 0 <= m < i ==> s@[k + m] == p@[m],
        decreases p.len() - i,
    {
        if s[k + i] != p[i] {
            assert(s@.subrange(k as int, k + p.len())[i as int] != p@[i as int]);
            return false;
        }
        i = i + 1;
    }
    assert(s@.subrange(k as int, k + p.len()) =~= p@);
    true
}

/// Whether `s` begins with `p`.
pub fn starts_with_exec(s: &Vec<char>, p: &Vec<char>) -> (r: bool)
    ensures
        r == starts_with(s@, p@),
{
    occurs_at_exec(s, p, 0)
}

/// Whether `s` ends with `p`.
pub fn ends_with_exec(s: &Vec<char>, p: &Vec<char>) -> (r: bool)
    ensures
        r == ends_with(s@, p@),
{
    if p.len() > s.len() {
        false
    } else {
        occurs_at_exec(s, p, s.len() - p.len())
    }
}

/// The first index where `p` occurs in `s`.
pub fn find_exec(s: &Vec<char>, p: &Vec<char>) -> (r: Option<usize>)
    ensures
        r matches Some(k) ==> find_from(s@, p@, 0) == Some(k as int),
        r is None ==> find_from(s@, p@, 0) is None,
        r is None <==> !contains(s@, p@),
{
    if p.len() > s.len() {
        proof {
            assert forall|k: int| !occurs_at(s@, p@, k) by {}
        }
        return None;
    }
    let last = s.len() - p.len();
    let mut k: usize = 0;
    loop
        invariant
            last + p.len() == s.len(),
            0 <= k <= last,
            find_from(s@, p@, k as int) == find_from(s@, p@, 0),
            forall|m: int| 0 <= m < k ==> !occurs_at(s@, p@, m),
        decreases last - k,
    {
        if occurs_at_exec(s, p, k) {
            return Some(k);
        }
        if k == last {
            proof {
                assert forall|m: int| !occurs_at(s@, p@, m) by {
                    if 0 <= m <= k {
                    }
                }
                assert(find_from(s@, p@, k + 1) is None);
            }
            return None;
        }
        k = k + 1;
    }
}

/// The index of the last `c` in `s[..j]`.
pub fn last_index_before(s: &Vec<char>, c: char, j: usize) -> (r: Option<usize>)
    requires
        j <= s.len(),
    ensures
        r matches Some(k) ==> last_before(s@, is_char(c), j as int) == k as int && k < j,
        r is None ==> last_before(s@, is_char(c), j as int) == -1,
{
    let mut m = j;
    while m > 0
        invariant
            m <= j <= s.len(),
            forall|x: int| m <= x < j ==> s@[x] != c,
        decreases m,
    {
        if s[m - 1] == c {
            proof {
                assert forall|x: int| m - 1 < x < j implies !is_char(c)(#[trigger] s@[x]) by {}
                lemma_last_before_is(s@, is_char(c), j as int, m - 1);
            }
            return Some(m - 1);
        }
        m = m - 1;
    }
    proof {
        assert forall|x: int| -1 < x < j implies !is_char(c)(#[trigger] s@[x]) by {}
        lemma_last_before_is(s@, is_char(c), j as int, -1);
    }
    None
}

/// The text after the last `c` in `s`.
pub fn after_last_exec(s: &Vec<char>, c: char) -> (r: Vec<char>)
    ensures
        r@ == after_last(s@, c),
{
    match last_index_before(s, c, s.len()) {
        Some(k) => copy_range(s, k + 1, s.len()),
        None => copy_range(s, 0, s.len()),
    }
}

/// One past the last non-space character of `s[..j]` (0 when there is none).
fn end_of_text(s: &Vec<char>, j: usize) -> (r: usize)
    requires
        j <= s.len(),
    ensures
        r as int == last_before(s@, non_space(), j as int) + 1,
        r <= j,
{
    let mut m = j;
    while m > 0
        invariant
            m <= j <= s.len(),
            forall|x: int| m <= x < j ==> is_space(s@[x]),
        decreases m,
    {
        if !is_space_char(s[m - 1]) {
            proof {
                assert forall|x: int| m - 1 < x < j implies !non_space()(#[trigger] s@[x]) by {}
                lemma_last_before_is(s@, non_space(), j as int, m - 1);
            }
            return m;
        }
        m = m - 1;
    }
    proof {
        assert forall|x: int| -1 < x < j implies !non_space()(#[trigger] s@[x]) by {}
        lemma_last_before_is(s@, non_space(), j as int, -1);
    }
    0
}

/// `s` without trailing white space.
pub fn trim_end_exec(s: &Vec<char>) -> (r: Vec<char>)
    ensures
        r@ == trim_end(s@),
{
    let e = end_of_text(s, s.len());
    copy_range(s, 0, e)
}

/// The position of the first non-space character of `s`, `s.len()` if none.
pub fn start_of_text(s: &Vec<char>) -> (r: usize)
    ensures
        r as int == first_from(s@, non_space(), 0),
{
    let mut m: usize = 0;
    while m < s.len() && is_space_char(s[m])
        invariant
            m <= s.len(),
            forall|x: int| 0 <= x < m ==> is_space(s@[x]),
        decreases s.len() - m,
    {
        m = m + 1;
    }
    proof {
        assert forall|x: int| 0 <= x < m implies !non_space()(#[trigger] s@[x]) by {}
        lemma_first_from_is(s@, non_space(), 0, m as int);
    }
    m
}

/// The bounds `(a, b)` of `trim(s)` in `s`.
pub fn trim_bounds(s: &Vec<char>) -> (r: (usize, usize))
    ensures
        r.0 <= r.1 <= s.len(),
        s@.subrange(r.0 as int, r.1 as int) == trim(s@),
{
    let a = start_of_text(s);
    let b = end_of_text(s, s.len());
    proof {
        lemma_first_from(s@, non_space(), 0);
    }
    if a < b {
        (a, b)
    } else {
        assert(s@.subrange(a as int, a as int) =~= trim(s@));
        (a, a)
    }
}

/// The last non-empty `c`-separated field of `s`.
pub fn last_field_exec(s: &Vec<char>, c: char) -> (r: Option<Vec<char>>)
    ensures
        r matches Some(f) ==> last_field(s@, c, s@.len() as int) == Some(f@),
        r is None ==> last_field(s@, c, s@.len() as int) is None,
{
    let mut j = s.len();
    while j > 0
        invariant
            j <= s.len(),
            last_field(s@, c, j as int) == last_field(s@, c, s@.len() as int),
        decreases j,
    {
        match last_index_before(s, c, j) {
            Some(k) => {
                if k + 1 < j {
                    return Some(copy_range(s, k + 1, j));
                }
                j = k;
            },
            None => {
                if 0 < j {
                    return Some(copy_range(s, 0, j));
                }
                return None;
            },
        }
    }
    None
}

} // verus!
