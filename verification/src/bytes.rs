//! Searching, trimming, splitting and comparing byte sequences.

use vstd::prelude::*;
use vstd::string::*;

verus! {

/// The two bytes that end a line on the wire: carriage return and line
/// feed.
pub open spec fn crlf() -> Seq<u8> {
    seq![13u8, 10u8]
}

/// `needle` stands in `hay` at offset `i`.
pub open spec fn occurs_at(hay: Seq<u8>, needle: Seq<u8>, i: int) -> bool {
    &&& 0 <= i
    &&& i + needle.len() <= hay.len()
    &&& hay.subrange(i, i + needle.len()) == needle
}

/// `needle` stands in `hay` at offset `i`, and at no smaller offset.
pub open spec fn is_first_occurrence(hay: Seq<u8>, needle: Seq<u8>, i: int) -> bool {
    &&& occurs_at(hay, needle, i)
    &&& forall|j: int| 0 <= j < i ==> !occurs_at(hay, needle, j)
}

/// The smallest offset at which `needle` stands in `hay`, if there is one.
/// The empty needle stands at offset 0 of every sequence.
pub open spec fn first_occurrence(hay: Seq<u8>, needle: Seq<u8>) -> Option<int> {
    if exists|i: int| is_first_occurrence(hay, needle, i) {
        Some(choose|i: int| is_first_occurrence(hay, needle, i))
    } else {
        None
    }
}

/// An occurrence with none before it is the first occurrence.
pub proof fn lemma_first_occurrence_is(hay: Seq<u8>, needle: Seq<u8>, i: int)
    requires
        is_first_occurrence(hay, needle, i),
    ensures
        first_occurrence(hay, needle) == Some(i),
{
    let k = choose|k: int| is_first_occurrence(hay, needle, k);
    assert(is_first_occurrence(hay, needle, k));
    if k < i {
        assert(!occurs_at(hay, needle, k));
    }
    if i < k {
        assert(!occurs_at(hay, needle, i));
    }
}

/// Below an occurrence there is a first one.
proof fn lemma_least_occurrence(hay: Seq<u8>, needle: Seq<u8>, j: int) -> (i: int)
    requires
        occurs_at(hay, needle, j),
    ensures
        is_first_occurrence(hay, needle, i),
        i <= j,
    decreases j,
{
    if exists|k: int| 0 <= k < j && occurs_at(hay, needle, k) {
        let k = choose|k: int| 0 <= k < j && occurs_at(hay, needle, k);
        lemma_least_occurrence(hay, needle, k)
    } else {
        j
    }
}

/// What `first_occurrence` returns: the first occurrence, or `None` exactly
/// when `needle` stands nowhere in `hay`.
pub proof fn lemma_first_occurrence(hay: Seq<u8>, needle: Seq<u8>)
    ensures
        match first_occurrence(hay, needle) {
            Some(i) => is_first_occurrence(hay, needle, i),
            None => forall|j: int| !occurs_at(hay, needle, j),
        },
{
    if first_occurrence(hay, needle) is None {
        assert forall|j: int| !occurs_at(hay, needle, j) by {
            if occurs_at(hay, needle, j) {
                let i = lemma_least_occurrence(hay, needle, j);
                assert(is_first_occurrence(hay, needle, i));
            }
        }
    }
}

/// Whether `needle` stands in `haystack` at offset `i`.
pub fn matches_at(haystack: &[u8], needle: &[u8], i: usize) -> (b: bool)
    ensures
        b == occurs_at(haystack@, needle@, i as int),
{
    let h: usize = haystack.len();
    let n: usize = needle.len();
    if i > h || n > h - i {
        return false;
    }
    let mut k: usize = 0;
    while k < n
        invariant
            h == haystack@.len(),
            n == needle@.len(),
            i + n <= h,
            k <= n,
            forall|t: int| 0 <= t < k ==> haystack@[i + t] == needle@[t],
        decreases n - k,
    {
        if haystack[i + k] != needle[k] {
            proof {
                let window = haystack@.subrange(i as int, i + n);
                assert(window[k as int] == haystack@[i + k]);
            }
            return false;
        }
        k += 1;
    }
    assert(haystack@.subrange(i as int, i + n) =~= needle@);
    true
}

/// The offset of the first occurrence of `needle` in `haystack`.
pub fn find_subslice(haystack: &[u8], needle: &[u8]) -> (found: Option<usize>)
    ensures
        match found {
            Some(i) => first_occurrence(haystack@, needle@) == Some(i as int) && i + needle@.len()
                <= haystack@.len(),
            None => first_occurrence(haystack@, needle@) is None,
        },
{
    let h: usize = haystack.len();
    let n: usize = needle.len();
    if n > h {
        proof {
            lemma_first_occurrence(haystack@, needle@);
        }
        return None;
    }
    let last: usize = h - n;
    let mut i: usize = 0;
    loop
        invariant
            h == haystack@.len(),
            n == needle@.len(),
            last == h - n,
            i <= last,
            forall|j: int| 0 <= j < i ==> !occurs_at(haystack@, needle@, j),
        decreases last - i,
    {
        if matches_at(haystack, needle, i) {
            proof {
                lemma_first_occurrence_is(haystack@, needle@, i as int);
            }
            return Some(i);
        }
        if i == last {
            proof {
                lemma_first_occurrence(haystack@, needle@);
            }
            return None;
        }
        i += 1;
    }
}

/// The offset of the first occurrence of `needle` in `hay` at or after
/// `from`; none where `from` lies outside `hay`.
pub open spec fn next_occurrence(hay: Seq<u8>, needle: Seq<u8>, from: int) -> Option<int> {
    if from < 0 || from > hay.len() {
        None
    } else {
        match first_occurrence(hay.skip(from), needle) {
            Some(i) => Some(from + i),
            None => None,
        }
    }
}

/// The offset of the first occurrence of `needle` in `haystack` that starts
/// at or after `from`.
pub fn find_from(haystack: &[u8], needle: &[u8], from: usize) -> (found: Option<usize>)
    ensures
        match found {
            Some(i) => next_occurrence(haystack@, needle@, from as int) == Some(i as int)
                && from <= i && i + needle@.len() <= haystack@.len(),
            None => next_occurrence(haystack@, needle@, from as int) is None,
        },
{
    if from > haystack.len() {
        return None;
    }
    let tail: &[u8] = &haystack[from..haystack.len()];
    assert(tail@ =~= haystack@.skip(from as int));
    proof {
        lemma_first_occurrence(tail@, needle@);
    }
    match find_subslice(tail, needle) {
        Some(i) => Some(from + i),
        None => None,
    }
}

/// Whether `needle` stands somewhere in `haystack`.
pub fn contains(haystack: &[u8], needle: &[u8]) -> (b: bool)
    ensures
        b == first_occurrence(haystack@, needle@).is_some(),
{
    find_subslice(haystack, needle).is_some()
}

/// Whether the two slices hold the same bytes.
pub fn same_bytes(a: &[u8], b: &[u8]) -> (eq: bool)
    ensures
        eq == (a@ == b@),
{
    if a.len() != b.len() {
        return false;
    }
    let eq: bool = matches_at(a, b, 0);
    assert(a@.subrange(0, a@.len() as int) =~= a@);
    eq
}

/// A copy of `src[from .. to]`.
pub(crate) fn copy_range(src: &[u8], from: usize, to: usize) -> (out: Vec<u8>)
    requires
        from <= to <= src@.len(),
    ensures
        out@ == src@.subrange(from as int, to as int),
{
    let mut out: Vec<u8> = Vec::new();
    let mut i: usize = from;
    while i < to
        invariant
            from <= i <= to <= src@.len(),
            out@ == src@.subrange(from as int, i as int),
        decreases to - i,
    {
        out.push(src[i]);
        assert(out@ =~= src@.subrange(from as int, i + 1));
        i += 1;
    }
    out
}

/// A copy of the bytes of `text`.
pub fn bytes_of(text: &str) -> (out: Vec<u8>)
    ensures
        out@ == text.spec_bytes(),
{
    let b: &[u8] = text.as_bytes();
    let out: Vec<u8> = copy_range(b, 0, b.len());
    assert(out@ =~= b@);
    out
}

/// A copy of `v`.
pub fn copy_of(v: &Vec<u8>) -> (out: Vec<u8>)
    ensures
        out@ == v@,
{
    let out: Vec<u8> = copy_range(v.as_slice(), 0, v.len());
    assert(out@ =~= v@);
    out
}

/// Appends `src` to `dst`.
pub fn append(dst: &mut Vec<u8>, src: &[u8])
    ensures
        final(dst)@ == old(dst)@ + src@,
{
    let n: usize = src.len();
    let mut i: usize = 0;
    while i < n
        invariant
            n == src@.len(),
            i <= n,
            dst@ == old(dst)@ + src@.take(i as int),
        decreases n - i,
    {
        dst.push(src[i]);
        assert(dst@ =~= old(dst)@ + src@.take(i + 1));
        i += 1;
    }
    assert(src@.take(n as int) =~= src@);
}

/// The six bytes that count as white space: space, tab, line feed,
/// vertical tab, form feed and carriage return.
pub open spec fn is_space(b: u8) -> bool {
    b == 32 || (9 <= b && b <= 13)
}

/// `s` without the white space at its start.
pub open spec fn trim_start(s: Seq<u8>) -> Seq<u8>
    decreases s.len(),
{
    if s.len() > 0 && is_space(s[0]) {
        trim_start(s.skip(1))
    } else {
        s
    }
}

/// `s` without the white space at its end.
pub open spec fn trim_end(s: Seq<u8>) -> Seq<u8>
    decreases s.len(),
{
    if s.len() > 0 && is_space(s.last()) {
        trim_end(s.drop_last())
    } else {
        s
    }
}

/// `s` without the white space at its start and at its end.
pub open spec fn trim(s: Seq<u8>) -> Seq<u8> {
    trim_end(trim_start(s))
}

/// Whether `b` is white space.
pub fn byte_is_space(b: u8) -> (r: bool)
    ensures
        r == is_space(b),
{
    b == 32 || (9 <= b && b <= 13)
}

/// The part of `s` that is left when the white space at both ends is
/// taken away.
pub fn trim_bytes(s: &[u8]) -> (t: &[u8])
    ensures
        t@ == trim(s@),
{
    let n: usize = s.len();
    let mut lo: usize = 0;
    assert(s@.skip(0) =~= s@);
    while lo < n && byte_is_space(s[lo])
        invariant
            n == s@.len(),
            lo <= n,
            trim_start(s@) == trim_start(s@.skip(lo as int)),
        decreases n - lo,
    {
        assert(s@.skip(lo as int).skip(1) =~= s@.skip(lo + 1));
        lo += 1;
    }
    assert(trim_start(s@) == s@.skip(lo as int));
    let mut hi: usize = n;
    while hi > lo && byte_is_space(s[hi - 1])
        invariant
            n == s@.len(),
            lo <= hi <= n,
            trim(s@) == trim_end(s@.subrange(lo as int, hi as int)),
        decreases hi - lo,
    {
        assert(s@.subrange(lo as int, hi as int).drop_last() =~= s@.subrange(
            lo as int,
            hi - 1,
        ));
        hi -= 1;
    }
    &s[lo..hi]
}

/// An occurrence stays the first one when bytes are added behind the
/// sequence.
pub proof fn lemma_first_occurrence_extend(hay: Seq<u8>, more: Seq<u8>, needle: Seq<u8>, i: int)
    requires
        first_occurrence(hay, needle) == Some(i),
    ensures
        first_occurrence(hay + more, needle) == Some(i),
{
    lemma_first_occurrence(hay, needle);
    let longer = hay + more;
    assert(longer.subrange(i, i + needle.len()) =~= hay.subrange(i, i + needle.len()));
    assert forall|j: int| 0 <= j < i implies !occurs_at(longer, needle, j) by {
        if occurs_at(longer, needle, j) {
            assert(longer.subrange(j, j + needle.len()) =~= hay.subrange(j, j + needle.len()));
            assert(occurs_at(hay, needle, j));
        }
    }
    lemma_first_occurrence_is(longer, needle, i);
}

/// The letter `b` in lower case, any other byte as it is.
pub open spec fn lower(b: u8) -> int {
    if 65 <= b && b <= 90 {
        b + 32
    } else {
        b as int
    }
}

/// Whether `a` and `b` are the same but for the case of their letters.
pub open spec fn eq_ignore_case(a: Seq<u8>, b: Seq<u8>) -> bool {
    &&& a.len() == b.len()
    &&& forall|i: int| 0 <= i < a.len() ==> lower(a[i]) == lower(b[i])
}

/// The letter `b` in lower case, any other byte as it is.
pub fn to_lower(b: u8) -> (r: u8)
    ensures
        r == lower(b),
{
    if 65 <= b && b <= 90 {
        b + 32
    } else {
        b
    }
}

/// Whether `a` and `b` are the same but for the case of their letters.
pub fn same_ignoring_case(a: &[u8], b: &[u8]) -> (eq: bool)
    ensures
        eq == eq_ignore_case(a@, b@),
{
    let n: usize = a.len();
    if n != b.len() {
        return false;
    }
    let mut i: usize = 0;
    while i < n
        invariant
            n == a@.len(),
            n == b@.len(),
            i <= n,
            forall|k: int| 0 <= k < i ==> lower(a@[k]) == lower(b@[k]),
        decreases n - i,
    {
        if to_lower(a[i]) != to_lower(b[i]) {
            return false;
        }
        i += 1;
    }
    true
}

/// `needle` stands in `hay` at offset `i`, and at no greater offset.
pub open spec fn is_last_occurrence(hay: Seq<u8>, needle: Seq<u8>, i: int) -> bool {
    &&& occurs_at(hay, needle, i)
    &&& forall|j: int| i < j ==> !occurs_at(hay, needle, j)
}

/// The greatest offset at which `needle` stands in `hay`, if there is one.
pub open spec fn last_occurrence(hay: Seq<u8>, needle: Seq<u8>) -> Option<int> {
    if exists|i: int| is_last_occurrence(hay, needle, i) {
        Some(choose|i: int| is_last_occurrence(hay, needle, i))
    } else {
        None
    }
}

/// An occurrence with none behind it is the last occurrence.
pub proof fn lemma_last_occurrence_is(hay: Seq<u8>, needle: Seq<u8>, i: int)
    requires
        is_last_occurrence(hay, needle, i),
    ensures
        last_occurrence(hay, needle) == Some(i),
{
    let k = choose|k: int| is_last_occurrence(hay, needle, k);
    assert(is_last_occurrence(hay, needle, k));
    if k < i {
        assert(!occurs_at(hay, needle, i));
    }
    if i < k {
        assert(!occurs_at(hay, needle, k));
    }
}

/// Above an occurrence there is a last one.
proof fn lemma_greatest_occurrence(hay: Seq<u8>, needle: Seq<u8>, j: int) -> (i: int)
    requires
        occurs_at(hay, needle, j),
    ensures
        is_last_occurrence(hay, needle, i),
        j <= i,
    decreases hay.len() - j,
{
    if exists|k: int| j < k && occurs_at(hay, needle, k) {
        let k = choose|k: int| j < k && occurs_at(hay, needle, k);
        lemma_greatest_occurrence(hay, needle, k)
    } else {
        j
    }
}

/// What `last_occurrence` returns: the last occurrence, or `None` exactly
/// when `needle` stands nowhere in `hay`.
pub proof fn lemma_last_occurrence(hay: Seq<u8>, needle: Seq<u8>)
    ensures
        match last_occurrence(hay, needle) {
            Some(i) => is_last_occurrence(hay, needle, i),
            None => forall|j: int| !occurs_at(hay, needle, j),
        },
{
    if last_occurrence(hay, needle) is None {
        assert forall|j: int| !occurs_at(hay, needle, j) by {
            if occurs_at(hay, needle, j) {
                let i = lemma_greatest_occurrence(hay, needle, j);
                assert(is_last_occurrence(hay, needle, i));
            }
        }
    }
}

/// What follows the last occurrence of `needle` in `hay`; all of `hay`
/// where `needle` does not occur.
pub open spec fn after_last(hay: Seq<u8>, needle: Seq<u8>) -> Seq<u8> {
    match last_occurrence(hay, needle) {
        Some(i) => hay.skip(i + needle.len()),
        None => hay,
    }
}

/// The offset of the last occurrence of `needle` in `haystack`.
pub fn find_last(haystack: &[u8], needle: &[u8]) -> (found: Option<usize>)
    ensures
        match found {
            Some(i) => last_occurrence(haystack@, needle@) == Some(i as int) && i + needle@.len()
                <= haystack@.len(),
            None => last_occurrence(haystack@, needle@) is None,
        },
{
    let h: usize = haystack.len();
    let n: usize = needle.len();
    if n > h {
        proof {
            lemma_last_occurrence(haystack@, needle@);
        }
        return None;
    }
    let mut i: usize = h - n;
    loop
        invariant
            h == haystack@.len(),
            n == needle@.len(),
            i <= h - n,
            forall|j: int| i < j ==> !occurs_at(haystack@, needle@, j),
        decreases i,
    {
        if matches_at(haystack, needle, i) {
            proof {
                lemma_last_occurrence_is(haystack@, needle@, i as int);
            }
            return Some(i);
        }
        if i == 0 {
            proof {
                lemma_last_occurrence(haystack@, needle@);
            }
            return None;
        }
        i -= 1;
    }
}

/// What follows the last occurrence of `needle` in `haystack`.
pub fn text_after_last<'a>(haystack: &'a [u8], needle: &[u8]) -> (rest: &'a [u8])
    ensures
        rest@ == after_last(haystack@, needle@),
{
    match find_last(haystack, needle) {
        Some(i) => {
            let n: usize = haystack.len();
            assert(i + needle@.len() <= n);
            let rest: &[u8] = &haystack[i + needle.len()..n];
            assert(rest@ =~= haystack@.skip(i + needle@.len()));
            rest
        },
        None => haystack,
    }
}

/// `s` with each occurrence of `pattern` replaced by `with`, the
/// occurrences taken from left to right and none of them overlapping
/// another. An empty pattern replaces nothing.
pub open spec fn replaced(s: Seq<u8>, pattern: Seq<u8>, with: Seq<u8>) -> Seq<u8>
    decreases s.len(),
{
    if pattern.len() == 0 {
        s
    } else {
        match first_occurrence(s, pattern) {
            None => s,
            Some(i) => {
                proof {
                    lemma_first_occurrence(s, pattern);
                }
                s.take(i) + with + replaced(s.skip(i + pattern.len()), pattern, with)
            },
        }
    }
}

/// `s` with each occurrence of `pattern` replaced by `with`.
pub fn replace_all(s: &[u8], pattern: &[u8], with: &[u8]) -> (out: Vec<u8>)
    ensures
        out@ == replaced(s@, pattern@, with@),
{
    let n: usize = s.len();
    let m: usize = pattern.len();
    if m == 0 {
        let out: Vec<u8> = copy_range(s, 0, n);
        assert(out@ =~= s@);
        return out;
    }
    let mut out: Vec<u8> = Vec::new();
    let mut pos: usize = 0;
    assert(s@.skip(0) =~= s@);
    loop
        invariant
            n == s@.len(),
            m == pattern@.len(),
            m > 0,
            pos <= n,
            replaced(s@, pattern@, with@) == out@ + replaced(s@.skip(pos as int), pattern@, with@),
        decreases n - pos,
    {
        let ghost tail = s@.skip(pos as int);
        let ghost before = out@;
        match find_from(s, pattern, pos) {
            None => {
                append(&mut out, &s[pos..n]);
                assert(out@ =~= before + tail);
                return out;
            },
            Some(i) => {
                append(&mut out, &s[pos..i]);
                append(&mut out, with);
                assert(s@.subrange(pos as int, i as int) =~= tail.take(i - pos));
                assert(tail.skip(i - pos + m) =~= s@.skip(i + m));
                assert(before + (tail.take(i - pos) + with@ + replaced(
                    s@.skip(i + m),
                    pattern@,
                    with@,
                )) =~= out@ + replaced(s@.skip(i + m), pattern@, with@));
                pos = i + m;
            },
        }
    }
}

/// What a list of byte strings holds.
pub open spec fn views(items: Seq<Vec<u8>>) -> Seq<Seq<u8>> {
    Seq::new(items.len(), |i: int| items[i]@)
}

/// Trimming at the start takes bytes away and leaves no white space in
/// front.
pub proof fn lemma_trim_start(s: Seq<u8>)
    ensures
        trim_start(s).len() <= s.len(),
        trim_start(s).len() > 0 ==> !is_space(trim_start(s)[0]),
        trim_start(s) == s.skip(s.len() - trim_start(s).len()),
    decreases s.len(),
{
    if s.len() > 0 && is_space(s[0]) {
        lemma_trim_start(s.skip(1));
        let t = trim_start(s.skip(1));
        assert(s.skip(1).skip(s.skip(1).len() - t.len()) =~= s.skip(s.len() - t.len()));
    } else {
        assert(s.skip(0) =~= s);
    }
}

/// How many bytes stand at the start of `s` before the first white space.
pub open spec fn word_len(s: Seq<u8>) -> int
    decreases s.len(),
{
    if s.len() > 0 && !is_space(s[0]) {
        1 + word_len(s.skip(1))
    } else {
        0
    }
}

/// A word is no longer than what it is read from, and not empty where
/// that starts with a byte that is no white space.
pub proof fn lemma_word_len(s: Seq<u8>)
    ensures
        0 <= word_len(s) <= s.len(),
        s.len() > 0 && !is_space(s[0]) ==> word_len(s) >= 1,
    decreases s.len(),
{
    if s.len() > 0 && !is_space(s[0]) {
        lemma_word_len(s.skip(1));
    }
}

/// A sequence without white space is one word.
pub proof fn lemma_one_word(s: Seq<u8>)
    requires
        s.len() > 0,
        forall|i: int| 0 <= i < s.len() ==> !is_space(s[i]),
    ensures
        word_len(s) == s.len(),
        words(s) == seq![s],
        trim(s) == s,
    decreases s.len(),
{
    if s.len() > 1 {
        let rest = s.skip(1);
        assert forall|i: int| 0 <= i < rest.len() implies !is_space(rest[i]) by {
            assert(rest[i] == s[i + 1]);
        }
        lemma_one_word(rest);
    } else {
        assert(word_len(s.skip(1)) == 0);
    }
    assert(trim_start(s) == s);
    assert(trim_end(s) == s);
    assert(s.take(s.len() as int) =~= s);
    let behind = s.skip(s.len() as int);
    assert(behind.len() == 0);
    assert(trim_start(behind) == behind);
    assert(words(behind) =~= Seq::<Seq<u8>>::empty());
    assert(words(s) =~= seq![s.take(word_len(s))] + words(s.skip(word_len(s))));
}

/// The words of `s`: the runs of bytes that white space separates, in
/// order.
pub open spec fn words(s: Seq<u8>) -> Seq<Seq<u8>>
    decreases s.len(),
{
    let t = trim_start(s);
    if t.len() == 0 {
        Seq::empty()
    } else {
        proof {
            lemma_trim_start(s);
            lemma_word_len(t);
        }
        seq![t.take(word_len(t))] + words(t.skip(word_len(t)))
    }
}

/// The words of `s`.
pub fn split_words(s: &[u8]) -> (out: Vec<Vec<u8>>)
    ensures
        views(out@) == words(s@),
{
    let n: usize = s.len();
    let mut out: Vec<Vec<u8>> = Vec::new();
    let mut pos: usize = 0;
    assert(s@.skip(0) =~= s@);
    assert(views(out@) =~= Seq::<Seq<u8>>::empty());
    loop
        invariant
            n == s@.len(),
            pos <= n,
            words(s@) == views(out@) + words(s@.skip(pos as int)),
        decreases n - pos,
    {
        let ghost here = s@.skip(pos as int);
        let mut lo: usize = pos;
        while lo < n && byte_is_space(s[lo])
            invariant
                n == s@.len(),
                pos <= lo <= n,
                trim_start(here) == trim_start(s@.skip(lo as int)),
                here == s@.skip(pos as int),
            decreases n - lo,
        {
            assert(s@.skip(lo as int).skip(1) =~= s@.skip(lo + 1));
            lo += 1;
        }
        let ghost t = s@.skip(lo as int);
        assert(trim_start(here) == t);
        if lo == n {
            assert(views(out@) + Seq::<Seq<u8>>::empty() =~= views(out@));
            return out;
        }
        let mut hi: usize = lo;
        while hi < n && !byte_is_space(s[hi])
            invariant
                n == s@.len(),
                lo <= hi <= n,
                t == s@.skip(lo as int),
                word_len(t) == hi - lo + word_len(s@.skip(hi as int)),
            decreases n - hi,
        {
            assert(s@.skip(hi as int).skip(1) =~= s@.skip(hi + 1));
            hi += 1;
        }
        assert(word_len(t) == hi - lo);
        let word: Vec<u8> = copy_range(s, lo, hi);
        assert(word@ =~= t.take(word_len(t)));
        assert(t.skip(word_len(t)) =~= s@.skip(hi as int));
        let ghost before = views(out@);
        out.push(word);
        assert(views(out@) =~= before.push(word@));
        assert(before + (seq![word@] + words(s@.skip(hi as int))) =~= before.push(word@) + words(
            s@.skip(hi as int),
        ));
        proof {
            lemma_trim_start(here);
        }
        pos = hi;
    }
}

/// The pieces of `s` between the occurrences of the byte `sep`, in
/// order: one more than there are occurrences, so that a sequence without
/// `sep` is its own single piece, and pieces may be empty.
pub open spec fn split_on(s: Seq<u8>, sep: u8) -> Seq<Seq<u8>>
    decreases s.len(),
{
    match first_occurrence(s, seq![sep]) {
        None => seq![s],
        Some(i) => {
            proof {
                lemma_first_occurrence(s, seq![sep]);
            }
            seq![s.take(i)] + split_on(s.skip(i + 1), sep)
        },
    }
}

/// A split gives at least one piece.
pub proof fn lemma_split_on_len(s: Seq<u8>, sep: u8)
    ensures
        split_on(s, sep).len() >= 1,
    decreases s.len(),
{
    lemma_first_occurrence(s, seq![sep]);
    match first_occurrence(s, seq![sep]) {
        None => {},
        Some(i) => {
            lemma_split_on_len(s.skip(i + 1), sep);
        },
    }
}

/// A single byte stands at an offset exactly where the sequence holds it
/// there.
pub proof fn lemma_occurs_at_byte(s: Seq<u8>, b: u8, j: int)
    ensures
        occurs_at(s, seq![b], j) <==> (0 <= j < s.len() && s[j] == b),
{
    if 0 <= j < s.len() {
        assert(s.subrange(j, j + 1)[0] == s[j]);
        if s[j] == b {
            assert(s.subrange(j, j + 1) =~= seq![b]);
        }
    }
}

/// The last piece of a split depends only on what follows the last
/// separator: whatever stands in front of a separator does not change it.
pub proof fn lemma_split_last_after_sep(x: Seq<u8>, y: Seq<u8>, sep: u8)
    ensures
        split_on(x + seq![sep] + y, sep).last() == split_on(y, sep).last(),
    decreases x.len(),
{
    let w = x + seq![sep] + y;
    lemma_first_occurrence(x, seq![sep]);
    match first_occurrence(x, seq![sep]) {
        None => {
            lemma_occurs_at_byte(w, sep, x.len() as int);
            assert forall|j: int| 0 <= j < x.len() implies !occurs_at(w, seq![sep], j) by {
                lemma_occurs_at_byte(w, sep, j);
                lemma_occurs_at_byte(x, sep, j);
            }
            lemma_first_occurrence_is(w, seq![sep], x.len() as int);
            assert(w.skip(x.len() as int + 1) =~= y);
            lemma_split_on_len(y, sep);
        },
        Some(i) => {
            lemma_first_occurrence_extend(x, seq![sep] + y, seq![sep], i);
            assert(x + (seq![sep] + y) =~= w);
            assert(w.skip(i + 1) =~= x.skip(i + 1) + seq![sep] + y);
            lemma_split_last_after_sep(x.skip(i + 1), y, sep);
            lemma_split_on_len(w.skip(i + 1), sep);
        },
    }
}

/// The last piece of a split holds no separator.
pub proof fn lemma_split_last_has_no_sep(s: Seq<u8>, sep: u8)
    ensures
        first_occurrence(split_on(s, sep).last(), seq![sep]) is None,
    decreases s.len(),
{
    lemma_first_occurrence(s, seq![sep]);
    match first_occurrence(s, seq![sep]) {
        None => {},
        Some(i) => {
            lemma_split_last_has_no_sep(s.skip(i + 1), sep);
            lemma_split_on_len(s.skip(i + 1), sep);
        },
    }
}

/// A sequence that does not hold the separator is its own single piece.
pub proof fn lemma_split_without_sep(s: Seq<u8>, sep: u8)
    requires
        forall|i: int| 0 <= i < s.len() ==> s[i] != sep,
    ensures
        first_occurrence(s, seq![sep]) is None,
        split_on(s, sep) == seq![s],
{
    lemma_first_occurrence(s, seq![sep]);
    if first_occurrence(s, seq![sep]) is Some {
        let i = first_occurrence(s, seq![sep])->0;
        lemma_occurs_at_byte(s, sep, i);
    }
}

/// The pieces `parts` put together with the byte `sep` between each two.
pub open spec fn join_with(parts: Seq<Seq<u8>>, sep: u8) -> Seq<u8>
    decreases parts.len(),
{
    if parts.len() == 0 {
        Seq::empty()
    } else if parts.len() == 1 {
        parts[0]
    } else {
        join_with(parts.drop_last(), sep) + seq![sep] + parts.last()
    }
}

/// Joining pieces is joining the first to the join of the others.
pub proof fn lemma_join_front(first: Seq<u8>, others: Seq<Seq<u8>>, sep: u8)
    requires
        others.len() > 0,
    ensures
        join_with(seq![first] + others, sep) == first + seq![sep] + join_with(others, sep),
    decreases others.len(),
{
    let all = seq![first] + others;
    assert(all.last() == others.last());
    assert(all.drop_last() =~= seq![first] + others.drop_last());
    if others.len() == 1 {
        assert(all.drop_last() =~= seq![first]);
        assert(join_with(seq![first], sep) == first);
        assert(join_with(others, sep) == others[0]);
        assert(join_with(all, sep) == join_with(all.drop_last(), sep) + seq![sep] + all.last());
    } else {
        lemma_join_front(first, others.drop_last(), sep);
        assert(join_with(all, sep) =~= first + seq![sep] + join_with(others, sep));
    }
}

/// Pieces that are joined again give what was split.
pub proof fn lemma_join_split(s: Seq<u8>, sep: u8)
    ensures
        join_with(split_on(s, sep), sep) == s,
    decreases s.len(),
{
    lemma_first_occurrence(s, seq![sep]);
    match first_occurrence(s, seq![sep]) {
        None => {},
        Some(i) => {
            let behind = s.skip(i + 1);
            lemma_join_split(behind, sep);
            lemma_split_on_len(behind, sep);
            lemma_join_front(s.take(i), split_on(behind, sep), sep);
            lemma_occurs_at_byte(s, sep, i);
            assert(s.take(i) + seq![sep] + behind =~= s);
        },
    }
}

/// The pieces of `s` between the occurrences of `sep`.
pub fn split_bytes(s: &[u8], sep: u8) -> (out: Vec<Vec<u8>>)
    ensures
        views(out@) == split_on(s@, sep),
        out@.len() >= 1,
{
    let mark: [u8; 1] = [sep];
    assert(mark@ =~= seq![sep]);
    let n: usize = s.len();
    let mut out: Vec<Vec<u8>> = Vec::new();
    let mut pos: usize = 0;
    assert(s@.skip(0) =~= s@);
    assert(views(out@) =~= Seq::<Seq<u8>>::empty());
    loop
        invariant
            n == s@.len(),
            pos <= n,
            mark@ == seq![sep],
            split_on(s@, sep) == views(out@) + split_on(s@.skip(pos as int), sep),
        decreases n - pos,
    {
        let ghost tail = s@.skip(pos as int);
        let ghost before = views(out@);
        match find_from(s, mark.as_slice(), pos) {
            None => {
                let piece: Vec<u8> = copy_range(s, pos, n);
                assert(piece@ =~= tail);
                out.push(piece);
                assert(views(out@) =~= before + seq![tail]);
                return out;
            },
            Some(i) => {
                let piece: Vec<u8> = copy_range(s, pos, i);
                assert(piece@ =~= tail.take(i - pos));
                assert(tail.skip(i - pos + 1) =~= s@.skip(i + 1));
                out.push(piece);
                assert(views(out@) =~= before.push(piece@));
                assert(before + (seq![piece@] + split_on(s@.skip(i + 1), sep)) =~= before.push(
                    piece@,
                ) + split_on(s@.skip(i + 1), sep));
                pos = i + 1;
            },
        }
    }
}

/// The first `count` of `parts` put together with `sep` between each two.
pub(crate) fn join_bytes(parts: &Vec<Vec<u8>>, count: usize, sep: u8) -> (out: Vec<u8>)
    requires
        count <= parts@.len(),
    ensures
        out@ == join_with(views(parts@).take(count as int), sep),
{
    let mut out: Vec<u8> = Vec::new();
    let mut i: usize = 0;
    assert(views(parts@).take(0) =~= Seq::<Seq<u8>>::empty());
    while i < count
        invariant
            i <= count <= parts@.len(),
            out@ == join_with(views(parts@).take(i as int), sep),
        decreases count - i,
    {
        let ghost done = views(parts@).take(i as int);
        let ghost next = views(parts@).take(i + 1);
        assert(next.drop_last() =~= done);
        assert(next.last() == parts@[i as int]@);
        if i > 0 {
            out.push(sep);
        }
        let ghost mid = out@;
        append(&mut out, parts[i].as_slice());
        assert(i > 0 ==> out@ =~= join_with(done, sep) + seq![sep] + parts@[i as int]@);
        assert(i == 0 ==> out@ =~= parts@[i as int]@ && next[0] == parts@[i as int]@);
        i += 1;
    }
    out
}

} // verus!
