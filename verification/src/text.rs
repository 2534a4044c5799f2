//! Small verified helpers on character sequences.
//!
//! The library reads and writes `String`s at its surface and works on
//! `Vec<char>` inside, so that every index is a character index.

use vstd::prelude::*;

verus! {

/// `String::push` appends one character to the string.
pub assume_specification[ String::push ](s: &mut String, c: char)
    ensures
        final(s)@ == old(s)@.push(c),
;

/// The characters of `s`, in order.
pub fn to_chars(s: &str) -> (v: Vec<char>)
    ensures
        v@ == s@,
{
    let mut v: Vec<char> = Vec::new();
    for c in it: s.chars()
        invariant
            it.seq() == s@,
            v@ == it.seq().take(it.index()),
    {
        v.push(c);
        assert(it.seq().take(it.index() + 1) =~= it.seq().take(it.index()).push(c));
    }
    assert(s@.take(s@.len() as int) =~= s@);
    v
}

/// The string made of the characters of `v`, in order.
pub fn to_text(v: &Vec<char>) -> (s: String)
    ensures
        s@ == v@,
{
    let mut s = String::new();
    let mut i: usize = 0;
    while i < v.len()
        invariant
            i <= v.len(),
            s@ == v@.take(i as int),
        decreases v.len() - i,
    {
        s.push(v[i]);
        assert(v@.take(i + 1) =~= v@.take(i as int).push(v@[i as int]));
        i += 1;
    }
    assert(v@.take(v.len() as int) =~= v@);
    s
}

/// Appends the characters of `src` to `dst`.
pub fn append_chars(dst: &mut Vec<char>, src: &Vec<char>)
    ensures
        final(dst)@ == old(dst)@ + src@,
{
    let mut i: usize = 0;
    while i < src.len()
        invariant
            i <= src.len(),
            dst@ == old(dst)@ + src@.take(i as int),
        decreases src.len() - i,
    {
        dst.push(src[i]);
        assert(src@.take(i + 1) =~= src@.take(i as int).push(src@[i as int]));
        assert(dst@ =~= old(dst)@ + src@.take(i + 1));
        i += 1;
    }
    assert(src@.take(src.len() as int) =~= src@);
}

/// The characters of `s` from index `from` up to, not including, `to`.
pub fn slice_chars(s: &Vec<char>, from: usize, to: usize) -> (r: Vec<char>)
    requires
        from <= to <= s.len(),
    ensures
        r@ == s@.subrange(from as int, to as int),
{
    let mut r: Vec<char> = Vec::new();
    let mut i: usize = from;
    while i < to
        invariant
            from <= i <= to <= s.len(),
            r@ == s@.subrange(from as int, i as int),
        decreases to - i,
    {
        r.push(s[i]);
        assert(s@.subrange(from as int, i + 1) =~= s@.subrange(from as int, i as int).push(
            s@[i as int],
        ));
        i += 1;
    }
    r
}

/// Whether the two vectors hold the same characters.
pub fn same_chars(a: &Vec<char>, b: &Vec<char>) -> (same: bool)
    ensures
        same == (a@ == b@),
{
    if a.len() != b.len() {
        return false;
    }
    let mut i: usize = 0;
    while i < a.len()
        invariant
            a.len() == b.len(),
            i <= a.len(),
            forall|j: int| 0 <= j < i ==> a@[j] == b@[j],
        decreases a.len() - i,
    {
        if a[i] != b[i] {
            return false;
        }
        i += 1;
    }
    assert(a@ =~= b@);
    true
}

/// Whether `pat` occurs in `s` at index `at`.
pub open spec fn occurs_at(s: Seq<char>, pat: Seq<char>, at: int) -> bool {
    &&& 0 <= at
    &&& at + pat.len() <= s.len()
    &&& s.subrange(at, at + pat.len()) == pat
}

/// Whether `s` begins with `pat`.
pub open spec fn has_prefix(s: Seq<char>, pat: Seq<char>) -> bool {
    occurs_at(s, pat, 0)
}

/// The index of the last occurrence of `pat` in `s`, if there is one.
#[verifier::opaque]
pub open spec fn last_index_of(s: Seq<char>, pat: Seq<char>) -> Option<int> {
    if exists|i: int| occurs_at(s, pat, i) {
        Some(
            choose|i: int|
                occurs_at(s, pat, i) && forall|j: int| occurs_at(s, pat, j) ==> j <= i,
        )
    } else {
        None
    }
}

/// An occurrence that no occurrence follows is the last one.
pub proof fn lemma_last_index_of(s: Seq<char>, pat: Seq<char>, i: int)
    requires
        occurs_at(s, pat, i),
        forall|j: int| occurs_at(s, pat, j) ==> j <= i,
    ensures
        last_index_of(s, pat) == Some(i),
{
    reveal(last_index_of);
    let c = choose|c: int| occurs_at(s, pat, c) && forall|j: int| occurs_at(s, pat, j) ==> j <= c;
    assert(occurs_at(s, pat, c) && forall|j: int| occurs_at(s, pat, j) ==> j <= c);
}

/// The last occurrence is an occurrence, and none follows it.
pub proof fn lemma_last_index_is_last(s: Seq<char>, pat: Seq<char>)
    ensures
        match last_index_of(s, pat) {
            Some(i) => occurs_at(s, pat, i) && forall|j: int| occurs_at(s, pat, j) ==> j <= i,
            None => forall|j: int| !occurs_at(s, pat, j),
        },
{
    reveal(last_index_of);
    if exists|i: int| occurs_at(s, pat, i) {
        let w = choose|i: int| occurs_at(s, pat, i);
        lemma_some_occurrence_is_last(s, pat, w, s.len() as int);
    }
}

proof fn lemma_some_occurrence_is_last(s: Seq<char>, pat: Seq<char>, w: int, bound: int)
    requires
        occurs_at(s, pat, w),
        w <= bound,
        forall|j: int| occurs_at(s, pat, j) ==> j <= bound,
    ensures
        exists|i: int| occurs_at(s, pat, i) && forall|j: int| occurs_at(s, pat, j) ==> j <= i,
    decreases bound - w,
{
    if occurs_at(s, pat, bound) {
    } else if w < bound {
        lemma_some_occurrence_is_last(s, pat, w, bound - 1);
    }
}

/// Tests whether `pat` occurs in `s` at index `at`.
pub fn matches_at(s: &Vec<char>, pat: &Vec<char>, at: usize) -> (found: bool)
    ensures
        found == occurs_at(s@, pat@, at as int),
{
    if at > s.len() || pat.len() > s.len() - at {
        return false;
    }
    let mut i: usize = 0;
    while i < pat.len()
        invariant
            at + pat.len() <= s.len(),
            i <= pat.len(),
            forall|j: int| 0 <= j < i ==> s@[at + j] == pat@[j],
        decreases pat.len() - i,
    {
        if s[at + i] != pat[i] {
            assert(s@.subrange(at as int, at + pat.len())[i as int] == s@[at + i]);
            return false;
        }
        i += 1;
    }
    assert(s@.subrange(at as int, at + pat.len()) =~= pat@);
    true
}

/// Finds the last occurrence of `pat` in `s`.
pub fn find_last(s: &Vec<char>, pat: &Vec<char>) -> (found: Option<usize>)
    ensures
        match found {
            Some(i) => last_index_of(s@, pat@) == Some(i as int) && occurs_at(s@, pat@, i as int),
            None => last_index_of(s@, pat@) is None,
        },
{
    if pat.len() > s.len() {
        proof {
            reveal(last_index_of);
        }
        return None;
    }
    let mut i: usize = s.len() - pat.len();
    loop
        invariant
            i + pat.len() <= s.len(),
            forall|j: int| i < j ==> !occurs_at(s@, pat@, j),
        decreases i,
    {
        if matches_at(s, pat, i) {
            proof {
                lemma_last_index_of(s@, pat@, i as int);
            }
            return Some(i);
        }
        if i == 0 {
            proof {
                reveal(last_index_of);
            }
            return None;
        }
        i -= 1;
    }
}

/// The characters that the trimming functions remove: space, tab, line feed
/// and carriage return, and the asterisk too where `star` is set.
pub open spec fn is_blank(c: char, star: bool) -> bool {
    c == ' ' || c == '\t' || c == '\n' || c == '\r' || (star && c == '*')
}

/// `s` without the blanks at its end.
pub open spec fn trim_end(s: Seq<char>, star: bool) -> Seq<char>
    decreases s.len(),
{
    if s.len() > 0 && is_blank(s.last(), star) {
        trim_end(s.drop_last(), star)
    } else {
        s
    }
}

/// `s` without the blanks at its start.
pub open spec fn trim_start(s: Seq<char>, star: bool) -> Seq<char>
    decreases s.len(),
{
    if s.len() > 0 && is_blank(s.first(), star) {
        trim_start(s.drop_first(), star)
    } else {
        s
    }
}

/// `s` without the blanks at either end.
pub open spec fn trim_both(s: Seq<char>, star: bool) -> Seq<char> {
    trim_end(trim_start(s, star), star)
}

/// Tests whether `c` is a blank.
pub fn blank(c: char, star: bool) -> (b: bool)
    ensures
        b == is_blank(c, star),
{
    c == ' ' || c == '\t' || c == '\n' || c == '\r' || (star && c == '*')
}

proof fn lemma_trim_end_take(s: Seq<char>, star: bool, k: int)
    requires
        0 <= k <= s.len(),
        forall|j: int| k <= j < s.len() ==> is_blank(s[j], star),
    ensures
        trim_end(s, star) == trim_end(s.take(k), star),
    decreases s.len() - k,
{
    if k < s.len() {
        assert(s.drop_last().take(k) =~= s.take(k));
        lemma_trim_end_take(s.drop_last(), star, k);
    } else {
        assert(s.take(k) =~= s);
    }
}

proof fn lemma_trim_start_skip(s: Seq<char>, star: bool, k: int)
    requires
        0 <= k <= s.len(),
        forall|j: int| 0 <= j < k ==> is_blank(s[j], star),
    ensures
        trim_start(s, star) == trim_start(s.skip(k), star),
    decreases k,
{
    if k > 0 {
        assert(s.drop_first().skip(k - 1) =~= s.skip(k));
        lemma_trim_start_skip(s.drop_first(), star, k - 1);
    } else {
        assert(s.skip(0) =~= s);
    }
}

/// Removes the blanks at the end of `s`.
pub fn trimmed_end(s: &Vec<char>, star: bool) -> (r: Vec<char>)
    ensures
        r@ == trim_end(s@, star),
{
    let mut k: usize = s.len();
    while k > 0 && blank(s[k - 1], star)
        invariant
            k <= s.len(),
            forall|j: int| k <= j < s.len() ==> is_blank(s@[j], star),
        decreases k,
    {
        k -= 1;
    }
    proof {
        lemma_trim_end_take(s@, star, k as int);
    }
    slice_chars(s, 0, k)
}

/// Removes the blanks at both ends of `s`.
pub fn trimmed(s: &Vec<char>, star: bool) -> (r: Vec<char>)
    ensures
        r@ == trim_both(s@, star),
{
    let mut k: usize = 0;
    while k < s.len() && blank(s[k], star)
        invariant
            k <= s.len(),
            forall|j: int| 0 <= j < k ==> is_blank(s@[j], star),
        decreases s.len() - k,
    {
        k += 1;
    }
    proof {
        lemma_trim_start_skip(s@, star, k as int);
    }
    let rest = slice_chars(s, k, s.len());
    trimmed_end(&rest, star)
}

/// The pieces of `s` between the occurrences of `c`: each `c` opens a new
/// piece, and any other character extends the last one. There is always at
/// least one piece.
pub open spec fn split_on(s: Seq<char>, c: char) -> Seq<Seq<char>>
    decreases s.len(),
{
    if s.len() == 0 {
        seq![Seq::<char>::empty()]
    } else {
        let before = split_on(s.drop_last(), c);
        if s.last() == c {
            before.push(Seq::<char>::empty())
        } else {
            before.drop_last().push(before.last().push(s.last()))
        }
    }
}

/// Splits `s` at each occurrence of `c`.
pub fn split_chars(s: &Vec<char>, c: char) -> (pieces: Vec<Vec<char>>)
    ensures
        pieces.len() == split_on(s@, c).len(),
        forall|k: int| 0 <= k < pieces.len() ==> (#[trigger] pieces@[k])@ == split_on(s@, c)[k],
{
    let mut pieces: Vec<Vec<char>> = Vec::new();
    let mut cur: Vec<char> = Vec::new();
    let mut i: usize = 0;
    while i < s.len()
        invariant
            i <= s.len(),
            split_on(s@.take(i as int), c).len() == pieces.len() + 1,
            forall|k: int|
                0 <= k < pieces.len() ==> (#[trigger] pieces@[k])@ == split_on(
                    s@.take(i as int),
                    c,
                )[k],
            cur@ == split_on(s@.take(i as int), c).last(),
        decreases s.len() - i,
    {
        assert(s@.take(i + 1).drop_last() =~= s@.take(i as int));
        if s[i] == c {
            pieces.push(cur);
            cur = Vec::new();
        } else {
            cur.push(s[i]);
        }
        i += 1;
    }
    assert(s@.take(s.len() as int) =~= s@);
    pieces.push(cur);
    pieces
}

/// Whether `c` is white space as Unicode defines it.
pub open spec fn is_white_space(c: char) -> bool {
    let n = c as u32;
    (0x09 <= n && n <= 0x0D) || n == 0x20 || n == 0x85 || n == 0xA0 || n == 0x1680 || (0x2000 <= n
        && n <= 0x200A) || n == 0x2028 || n == 0x2029 || n == 0x202F || n == 0x205F || n == 0x3000
}

/// `s` without the white space at its end.
pub open spec fn trim_white_end(s: Seq<char>) -> Seq<char>
    decreases s.len(),
{
    if s.len() > 0 && is_white_space(s.last()) {
        trim_white_end(s.drop_last())
    } else {
        s
    }
}

/// `s` without the white space at its start.
pub open spec fn trim_white_start(s: Seq<char>) -> Seq<char>
    decreases s.len(),
{
    if s.len() > 0 && is_white_space(s.first()) {
        trim_white_start(s.drop_first())
    } else {
        s
    }
}

/// `s` without the white space at either end.
pub open spec fn trim_white(s: Seq<char>) -> Seq<char> {
    trim_white_end(trim_white_start(s))
}

/// Tests whether `c` is white space.
pub fn white_space(c: char) -> (b: bool)
    ensures
        b == is_white_space(c),
{
    let n = c as u32;
    (0x09 <= n && n <= 0x0D) || n == 0x20 || n == 0x85 || n == 0xA0 || n == 0x1680 || (0x2000 <= n
        && n <= 0x200A) || n == 0x2028 || n == 0x2029 || n == 0x202F || n == 0x205F || n == 0x3000
}

proof fn lemma_trim_white_end_take(s: Seq<char>, k: int)
    requires
        0 <= k <= s.len(),
        forall|j: int| k <= j < s.len() ==> is_white_space(s[j]),
    ensures
        trim_white_end(s) == trim_white_end(s.take(k)),
    decreases s.len() - k,
{
    if k < s.len() {
        assert(s.drop_last().take(k) =~= s.take(k));
        lemma_trim_white_end_take(s.drop_last(), k);
    } else {
        assert(s.take(k) =~= s);
    }
}

proof fn lemma_trim_white_start_skip(s: Seq<char>, k: int)
    requires
        0 <= k <= s.len(),
        forall|j: int| 0 <= j < k ==> is_white_space(s[j]),
    ensures
        trim_white_start(s) == trim_white_start(s.skip(k)),
    decreases k,
{
    if k > 0 {
        assert(s.drop_first().skip(k - 1) =~= s.skip(k));
        lemma_trim_white_start_skip(s.drop_first(), k - 1);
    } else {
        assert(s.skip(0) =~= s);
    }
}

/// Removes the white space at both ends of `s`.
pub fn trimmed_white(s: &Vec<char>) -> (r: Vec<char>)
    ensures
        r@ == trim_white(s@),
{
    let mut from: usize = 0;
    while from < s.len() && white_space(s[from])
        invariant
            from <= s.len(),
            forall|j: int| 0 <= j < from ==> is_white_space(s@[j]),
        decreases s.len() - from,
    {
        from += 1;
    }
    proof {
        lemma_trim_white_start_skip(s@, from as int);
    }
    let rest = slice_chars(s, from, s.len());
    let mut to: usize = rest.len();
    while to > 0 && white_space(rest[to - 1])
        invariant
            to <= rest.len(),
            forall|j: int| to <= j < rest.len() ==> is_white_space(rest@[j]),
        decreases to,
    {
        to -= 1;
    }
    proof {
        lemma_trim_white_end_take(rest@, to as int);
    }
    slice_chars(&rest, 0, to)
}

/// `l` without a carriage return at its end.
pub open spec fn without_return(l: Seq<char>) -> Seq<char> {
    if l.len() > 0 && l.last() == '\r' {
        l.drop_last()
    } else {
        l
    }
}

/// The lines of `s`. A line ends with a line feed, or with a carriage return
/// and a line feed, which do not belong to it; what follows the last line
/// feed is a line too, unless it is empty.
pub open spec fn lines_of(s: Seq<char>) -> Seq<Seq<char>> {
    let parts = split_on(s, '\n');
    let ended = Seq::new((parts.len() - 1) as nat, |i: int| without_return(parts[i]));
    if parts.last().len() == 0 {
        ended
    } else {
        ended.push(parts.last())
    }
}

/// There is always at least one piece.
pub proof fn lemma_split_on_some(s: Seq<char>, c: char)
    ensures
        split_on(s, c).len() > 0,
    decreases s.len(),
{
    if s.len() > 0 {
        lemma_split_on_some(s.drop_last(), c);
    }
}

/// Cuts `s` into its lines.
pub fn text_lines(s: &Vec<char>) -> (lines: Vec<Vec<char>>)
    ensures
        lines.len() == lines_of(s@).len(),
        forall|k: int| 0 <= k < lines.len() ==> (#[trigger] lines@[k])@ == lines_of(s@)[k],
{
    let parts = split_chars(s, '\n');
    proof {
        lemma_split_on_some(s@, '\n');
    }
    let mut lines: Vec<Vec<char>> = Vec::new();
    let last = parts.len() - 1;
    let mut i: usize = 0;
    while i < last
        invariant
            i <= last,
            last == parts.len() - 1,
            parts.len() == split_on(s@, '\n').len(),
            forall|k: int|
                0 <= k < parts.len() ==> (#[trigger] parts@[k])@ == split_on(s@, '\n')[k],
            lines.len() == i,
            forall|k: int|
                0 <= k < i ==> (#[trigger] lines@[k])@ == without_return(split_on(s@, '\n')[k]),
        decreases last - i,
    {
        let part = &parts[i];
        let n = part.len();
        if n > 0 && part[n - 1] == '\r' {
            lines.push(slice_chars(part, 0, n - 1));
        } else {
            lines.push(slice_chars(part, 0, n));
            assert(part@.subrange(0, n as int) =~= part@);
        }
        i += 1;
    }
    if parts[last].len() > 0 {
        let part = &parts[last];
        let n = part.len();
        lines.push(slice_chars(part, 0, n));
        assert(part@.subrange(0, n as int) =~= part@);
    }
    lines
}

} // verus!
