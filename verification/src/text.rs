//! Character-level text handling: the model of a string is the sequence of
//! its characters, and every operation here is stated over that sequence.
use vstd::prelude::*;

verus! {

/// `String::push`. Claimed, as its documentation says: the character is
/// appended to the end of the string.
pub assume_specification[ String::push ](s: &mut String, ch: char)
    ensures
        final(s)@ == old(s)@.push(ch),
;

// ---------------------------------------------------------------------------
// Specifications
// ---------------------------------------------------------------------------
/// Unicode `White_Space`, the property that `char::is_whitespace` and
/// `str::trim` go by.
pub open spec fn is_ws(c: char) -> bool {
    let u = c as u32;
    ||| 9 <= u <= 13
    ||| u == 32
    ||| u == 0x85
    ||| u == 0xA0
    ||| u == 0x1680
    ||| 0x2000 <= u <= 0x200A
    ||| u == 0x2028
    ||| u == 0x2029
    ||| u == 0x202F
    ||| u == 0x205F
    ||| u == 0x3000
}

/// `s` without its leading whitespace.
pub open spec fn trim_start(s: Seq<char>) -> Seq<char>
    decreases s.len(),
{
    if s.len() > 0 && is_ws(s[0]) {
        trim_start(s.drop_first())
    } else {
        s
    }
}

/// `s` without its trailing whitespace.
pub open spec fn trim_end(s: Seq<char>) -> Seq<char>
    decreases s.len(),
{
    if s.len() > 0 && is_ws(s.last()) {
        trim_end(s.drop_last())
    } else {
        s
    }
}

/// `s` without leading and trailing whitespace.
pub open spec fn trim(s: Seq<char>) -> Seq<char> {
    trim_end(trim_start(s))
}

pub open spec fn starts_with(s: Seq<char>, p: Seq<char>) -> bool {
    p.len() <= s.len() && s.take(p.len() as int) == p
}

pub open spec fn matches_at(s: Seq<char>, p: Seq<char>, i: int) -> bool {
    0 <= i && i + p.len() <= s.len() && s.subrange(i, i + p.len()) == p
}

/// The first position at or after `i` where `p` occurs in `s`.
pub open spec fn find_from(s: Seq<char>, p: Seq<char>, i: int) -> Option<int>
    decreases s.len() + 1 - i,
{
    if i < 0 || i + p.len() > s.len() {
        None
    } else if matches_at(s, p, i) {
        Some(i)
    } else {
        find_from(s, p, i + 1)
    }
}

/// The first position where `p` occurs in `s` (`str::find`).
pub open spec fn find(s: Seq<char>, p: Seq<char>) -> Option<int> {
    find_from(s, p, 0)
}

pub open spec fn contains(s: Seq<char>, p: Seq<char>) -> bool {
    find(s, p) is Some
}

/// `s` with every occurrence of `p`, taken from left to right without
/// overlap, replaced by `r` (`str::replace` for a non-empty `p`).
pub open spec fn replace(s: Seq<char>, p: Seq<char>, r: Seq<char>) -> Seq<char>
    decreases s.len(),
{
    if s.len() == 0 || p.len() == 0 {
        s
    } else if starts_with(s, p) {
        r + replace(s.skip(p.len() as int), p, r)
    } else {
        seq![s[0]] + replace(s.drop_first(), p, r)
    }
}

/// The first position of `c` in `s`.
pub open spec fn index_of(s: Seq<char>, c: char) -> Option<int>
    decreases s.len(),
{
    if s.len() == 0 {
        None
    } else if s[0] == c {
        Some(0)
    } else {
        match index_of(s.drop_first(), c) {
            Some(i) => Some(i + 1),
            None => None,
        }
    }
}

/// The pieces of `s` between occurrences of `c` (`str::split` with a
/// character): never empty.
pub open spec fn split(s: Seq<char>, c: char) -> Seq<Seq<char>>
    decreases s.len(),
{
    match index_of(s, c) {
        None => seq![s],
        Some(i) => {
            proof {
                lemma_index_of(s, c);
            }
            seq![s.take(i)] + split(s.skip(i + 1), c)
        },
    }
}

/// One line as `str::lines` yields it: the text before a line feed, without
/// a carriage return that stood right before the feed.
pub open spec fn strip_cr(line: Seq<char>) -> Seq<char> {
    if line.len() > 0 && line.last() == '\r' {
        line.drop_last()
    } else {
        line
    }
}

/// The lines of `s` (`str::lines`): split at line feeds, a final empty line
/// is not yielded, and a carriage return before a feed is dropped.
pub open spec fn lines(s: Seq<char>) -> Seq<Seq<char>>
    decreases s.len(),
{
    if s.len() == 0 {
        seq![]
    } else {
        match index_of(s, '\n') {
            None => seq![s],
            Some(i) => {
                proof {
                    lemma_index_of(s, '\n');
                }
                seq![strip_cr(s.take(i))] + lines(s.skip(i + 1))
            },
        }
    }
}

/// The pieces joined with `sep` between them (`[&str]::join`).
pub open spec fn join(parts: Seq<Seq<char>>, sep: Seq<char>) -> Seq<char>
    decreases parts.len(),
{
    if parts.len() == 0 {
        seq![]
    } else if parts.len() == 1 {
        parts[0]
    } else {
        join(parts.drop_last(), sep) + sep + parts.last()
    }
}

/// The texts held by a sequence of character vectors.
pub open spec fn texts(v: Seq<Vec<char>>) -> Seq<Seq<char>> {
    v.map_values(|x: Vec<char>| x@)
}

pub proof fn lemma_texts_push(v: Seq<Vec<char>>, x: Vec<char>)
    ensures
        texts(v.push(x)) == texts(v).push(x@),
{
    assert(texts(v.push(x)) =~= texts(v).push(x@));
}

// ---------------------------------------------------------------------------
// Lemmas
// ---------------------------------------------------------------------------
pub proof fn lemma_index_of(s: Seq<char>, c: char)
    ensures
        match index_of(s, c) {
            Some(i) => 0 <= i < s.len() && s[i] == c && forall|j: int| 0 <= j < i ==> s[j] != c,
            None => forall|j: int| 0 <= j < s.len() ==> s[j] != c,
        },
    decreases s.len(),
{
    if s.len() > 0 && s[0] != c {
        lemma_index_of(s.drop_first(), c);
        match index_of(s.drop_first(), c) {
            Some(i) => {
                assert forall|j: int| 0 <= j < i + 1 implies s[j] != c by {
                    if j > 0 {
                        assert(s[j] == s.drop_first()[j - 1]);
                    }
                }
            },
            None => {
                assert forall|j: int| 0 <= j < s.len() implies s[j] != c by {
                    if j > 0 {
                        assert(s[j] == s.drop_first()[j - 1]);
                    }
                }
            },
        }
    }
}

/// `index_of` is the first position holding `c`.
pub proof fn lemma_index_of_at(s: Seq<char>, c: char, i: int)
    requires
        0 <= i < s.len(),
        s[i] == c,
        forall|j: int| 0 <= j < i ==> s[j] != c,
    ensures
        index_of(s, c) == Some(i),
{
    lemma_index_of(s, c);
}

pub proof fn lemma_index_of_none(s: Seq<char>, c: char)
    requires
        forall|j: int| 0 <= j < s.len() ==> s[j] != c,
    ensures
        index_of(s, c) is None,
{
    lemma_index_of(s, c);
}

pub proof fn lemma_find_from(s: Seq<char>, p: Seq<char>, i: int)
    requires
        0 <= i,
    ensures
        match find_from(s, p, i) {
            Some(k) => i <= k && matches_at(s, p, k) && forall|j: int|
                i <= j < k ==> !matches_at(s, p, j),
            None => forall|j: int| i <= j ==> !matches_at(s, p, j),
        },
    decreases s.len() + 1 - i,
{
    if i + p.len() <= s.len() && !matches_at(s, p, i) {
        lemma_find_from(s, p, i + 1);
    }
}

/// `find_from` gives the first match at or after `i`.
pub proof fn lemma_find_from_at(s: Seq<char>, p: Seq<char>, i: int, k: int)
    requires
        0 <= i <= k,
        matches_at(s, p, k),
        forall|j: int| i <= j < k ==> !matches_at(s, p, j),
    ensures
        find_from(s, p, i) == Some(k),
{
    lemma_find_from(s, p, i);
}

pub proof fn lemma_trim_start_skip(s: Seq<char>, i: int)
    requires
        0 <= i <= s.len(),
        forall|j: int| 0 <= j < i ==> is_ws(s[j]),
    ensures
        trim_start(s) == trim_start(s.skip(i)),
    decreases i,
{
    if i > 0 {
        assert(is_ws(s[0]));
        assert(s.drop_first().skip(i - 1) =~= s.skip(i));
        assert forall|j: int| 0 <= j < i - 1 implies is_ws(s.drop_first()[j]) by {
            assert(s.drop_first()[j] == s[j + 1]);
        }
        lemma_trim_start_skip(s.drop_first(), i - 1);
    } else {
        assert(s.skip(0) =~= s);
    }
}

pub proof fn lemma_trim_end_take(s: Seq<char>, k: int)
    requires
        0 <= k <= s.len(),
        forall|j: int| k <= j < s.len() ==> is_ws(s[j]),
    ensures
        trim_end(s) == trim_end(s.take(k)),
    decreases s.len() - k,
{
    if k < s.len() {
        assert(is_ws(s.last()));
        assert(s.drop_last().take(k) =~= s.take(k));
        lemma_trim_end_take(s.drop_last(), k);
    } else {
        assert(s.take(k) =~= s);
    }
}

pub proof fn lemma_matches_at_skip(s: Seq<char>, p: Seq<char>, k: int)
    requires
        0 <= k <= s.len(),
    ensures
        matches_at(s, p, k) == starts_with(s.skip(k), p),
{
    if p.len() + k <= s.len() {
        assert(s.skip(k).take(p.len() as int) =~= s.subrange(k, k + p.len()));
    }
}

/// Replacing a pattern that does not occur changes nothing.
pub proof fn lemma_replace_absent(s: Seq<char>, p: Seq<char>, r: Seq<char>)
    requires
        !contains(s, p),
    ensures
        replace(s, p, r) == s,
    decreases s.len(),
{
    lemma_find_from(s, p, 0);
    if s.len() > 0 && p.len() > 0 {
        assert(!matches_at(s, p, 0));
        if starts_with(s, p) {
            assert(s.take(p.len() as int) =~= s.subrange(0, p.len() as int));
        }
        let t = s.drop_first();
        lemma_find_from(t, p, 0);
        if find(t, p) is Some {
            let k = find(t, p)->0;
            assert(t.subrange(k, k + p.len()) =~= s.subrange(k + 1, k + 1 + p.len()));
            assert(matches_at(s, p, k + 1));
        }
        lemma_replace_absent(t, p, r);
        assert(seq![s[0]] + t =~= s);
    }
}

// ---------------------------------------------------------------------------
// Executable functions
// ---------------------------------------------------------------------------
/// The characters of a string slice, one by one.
pub fn chars_of(s: &str) -> (v: Vec<char>)
    ensures
        v@ == s@,
{
    let mut v: Vec<char> = Vec::new();
    for c in it: s.chars()
        invariant
            v@ == it.seq().take(it.index() as int),
            it.seq() == s@,
    {
        v.push(c);
    }
    v
}

/// A string holding the given characters.
pub fn string_of(v: &Vec<char>) -> (s: String)
    ensures
        s@ == v@,
{
    let mut s = String::new();
    let mut i: usize = 0;
    while i < v.len()
        invariant
            i <= v.len(),
            s@ == v@.take(i as int),
        decreases v.len() - i,
    {
        s.push(v[i]);
        i = i + 1;
        assert(s@ =~= v@.take(i as int));
    }
    assert(v@.take(v.len() as int) =~= v@);
    s
}

/// The characters of `v` from `lo` up to `hi`.
pub fn slice(v: &Vec<char>, lo: usize, hi: usize) -> (r: Vec<char>)
    requires
        lo <= hi <= v.len(),
    ensures
        r@ == v@.subrange(lo as int, hi as int),
{
    let mut r: Vec<char> = Vec::new();
    let mut i = lo;
    while i < hi
        invariant
            lo <= i <= hi <= v.len(),
            r@ == v@.subrange(lo as int, i as int),
        decreases hi - i,
    {
        r.push(v[i]);
        i = i + 1;
        assert(r@ =~= v@.subrange(lo as int, i as int));
    }
    r
}

/// `a` followed by `b`.
pub fn concat(a: &Vec<char>, b: &Vec<char>) -> (r: Vec<char>)
    ensures
        r@ == a@ + b@,
{
    let mut r = a.clone();
    let mut i: usize = 0;
    while i < b.len()
        invariant
            i <= b.len(),
            r@ == a@ + b@.take(i as int),
        decreases b.len() - i,
    {
        r.push(b[i]);
        i = i + 1;
        assert(r@ =~= a@ + b@.take(i as int));
    }
    assert(b@.take(b.len() as int) =~= b@);
    r
}

/// Whether two character sequences are equal.
pub fn eq_chars(a: &Vec<char>, b: &Vec<char>) -> (r: bool)
    ensures
        r == (a@ == b@),
{
    if a.len() != b.len() {
        return false;
    }
    let mut i: usize = 0;
    while i < a.len()
        invariant
            a.len() == b.len(),
            i <= a.len(),
            forall|j: int| 0 <= j < i ==> a@[j] == b@[j],
        decreases a.len() - i,
    {
        if a[i] != b[i] {
            return false;
        }
        i = i + 1;
    }
    assert(a@ =~= b@);
    true
}

/// `char::is_whitespace`.
pub fn is_whitespace(c: char) -> (r: bool)
    ensures
        r == is_ws(c),
{
    let u = c as u32;
    (9 <= u && u <= 13) || u == 32 || u == 0x85 || u == 0xA0 || u == 0x1680 || (0x2000 <= u && u
        <= 0x200A) || u == 0x2028 || u == 0x2029 || u == 0x202F || u == 0x205F || u == 0x3000
}

/// `s` without leading and trailing whitespace (`str::trim`).
pub fn trim_chars(s: &Vec<char>) -> (r: Vec<char>)
    ensures
        r@ == trim(s@),
{
    let mut i: usize = 0;
    while i < s.len() && is_whitespace(s[i])
        invariant
            i <= s.len(),
            forall|j: int| 0 <= j < i ==> is_ws(s@[j]),
        decreases s.len() - i,
    {
        i = i + 1;
    }
    proof {
        lemma_trim_start_skip(s@, i as int);
        if i < s.len() {
            assert(!is_ws(s@.skip(i as int)[0]));
        }
        assert(trim_start(s@.skip(i as int)) == s@.skip(i as int));
    }
    let ghost t = s@.skip(i as int);
    let mut k: usize = s.len();
    while k > i && is_whitespace(s[k - 1])
        invariant
            i <= k <= s.len(),
            forall|j: int| k <= j < s.len() ==> is_ws(s@[j]),
        decreases k,
    {
        k = k - 1;
    }
    proof {
        let kk = k - i;
        assert forall|j: int| kk <= j < t.len() implies is_ws(t[j]) by {
            assert(t[j] == s@[j + i]);
        }
        lemma_trim_end_take(t, kk as int);
        if kk > 0 {
            assert(t.take(kk as int).last() == s@[k - 1]);
        }
        assert(t.take(kk as int) =~= s@.subrange(i as int, k as int));
    }
    slice(s, i, k)
}

/// Whether `s` begins with `p`.
pub fn starts_with_chars(s: &Vec<char>, p: &Vec<char>) -> (r: bool)
    ensures
        r == starts_with(s@, p@),
{
    if p.len() > s.len() {
        return false;
    }
    let mut i: usize = 0;
    while i < p.len()
        invariant
            p.len() <= s.len(),
            i <= p.len(),
            forall|j: int| 0 <= j < i ==> s@[j] == p@[j],
        decreases p.len() - i,
    {
        if s[i] != p[i] {
            assert(s@.take(p.len() as int)[i as int] != p@[i as int]);
            return false;
        }
        i = i + 1;
    }
    assert(s@.take(p.len() as int) =~= p@);
    true
}

/// Whether `p` occurs in `s` at position `i`.
pub fn matches_at_chars(s: &Vec<char>, p: &Vec<char>, i: usize) -> (r: bool)
    ensures
        r == matches_at(s@, p@, i as int),
{
    if i > s.len() || p.len() > s.len() - i {
        return false;
    }
    let mut j: usize = 0;
    while j < p.len()
        invariant
            i + p.len() <= s.len(),
            j <= p.len(),
            forall|k: int| 0 <= k < j ==> s@[i + k] == p@[k],
        decreases p.len() - j,
    {
        if s[i + j] != p[j] {
            assert(s@.subrange(i as int, i + p.len())[j as int] != p@[j as int]);
            return false;
        }
        j = j + 1;
    }
    assert(s@.subrange(i as int, i + p.len()) =~= p@);
    true
}

/// The first position of `p` in `s` (`str::find`).
pub fn find_chars(s: &Vec<char>, p: &Vec<char>) -> (r: Option<usize>)
    ensures
        match r {
            Some(i) => find(s@, p@) == Some(i as int) && matches_at(s@, p@, i as int),
            None => find(s@, p@) is None,
        },
{
    if p.len() > s.len() {
        proof {
            lemma_find_from(s@, p@, 0);
        }
        return None;
    }
    let last = s.len() - p.len();
    let mut i: usize = 0;
    loop
        invariant
            i <= last,
            last + p.len() == s.len(),
            forall|j: int| 0 <= j < i ==> !matches_at(s@, p@, j),
        ensures
            forall|j: int| 0 <= j <= last ==> !matches_at(s@, p@, j),
        decreases last - i,
    {
        if matches_at_chars(s, p, i) {
            proof {
                lemma_find_from_at(s@, p@, 0, i as int);
            }
            return Some(i);
        }
        if i == last {
            break;
        }
        i = i + 1;
    }
    proof {
        lemma_find_from(s@, p@, 0);
        match find_from(s@, p@, 0) {
            Some(k) => {
                assert(matches_at(s@, p@, k));
                assert(false);
            },
            None => {},
        }
    }
    None
}

/// Whether `p` occurs in `s`.
pub fn contains_chars(s: &Vec<char>, p: &Vec<char>) -> (r: bool)
    ensures
        r == contains(s@, p@),
{
    find_chars(s, p).is_some()
}

/// The first position of `c` in `s`.
pub fn index_of_char(s: &Vec<char>, c: char) -> (r: Option<usize>)
    ensures
        match r {
            Some(i) => index_of(s@, c) == Some(i as int) && i < s.len(),
            None => index_of(s@, c) is None,
        },
{
    let mut i: usize = 0;
    while i < s.len()
        invariant
            i <= s.len(),
            forall|j: int| 0 <= j < i ==> s@[j] != c,
        decreases s.len() - i,
    {
        if s[i] == c {
            proof {
                lemma_index_of_at(s@, c, i as int);
            }
            return Some(i);
        }
        i = i + 1;
    }
    proof {
        lemma_index_of_none(s@, c);
    }
    None
}

pub proof fn lemma_replace_step(s: Seq<char>, p: Seq<char>, r: Seq<char>, i: int)
    requires
        0 <= i < s.len(),
        p.len() > 0,
    ensures
        matches_at(s, p, i) ==> replace(s.skip(i), p, r) == r + replace(s.skip(i + p.len()), p, r),
        !matches_at(s, p, i) ==> replace(s.skip(i), p, r) == seq![s[i]] + replace(s.skip(i + 1), p, r),
{
    let t = s.skip(i);
    assert(t.len() > 0);
    if matches_at(s, p, i) {
        assert(t.take(p.len() as int) =~= s.subrange(i, i + p.len()));
        assert(t.skip(p.len() as int) =~= s.skip(i + p.len()));
    } else {
        if starts_with(t, p) {
            assert(t.take(p.len() as int) =~= s.subrange(i, i + p.len()));
        }
        assert(t.drop_first() =~= s.skip(i + 1));
    }
}

/// `s` with every occurrence of `p` replaced by `r` (`str::replace`).
pub fn replace_chars(s: &Vec<char>, p: &Vec<char>, r: &Vec<char>) -> (out: Vec<char>)
    requires
        p.len() > 0,
    ensures
        out@ == replace(s@, p@, r@),
{
    let mut out: Vec<char> = Vec::new();
    let mut i: usize = 0;
    assert(s@.skip(0) =~= s@);
    while i < s.len()
        invariant
            p.len() > 0,
            i <= s.len(),
            out@ + replace(s@.skip(i as int), p@, r@) == replace(s@, p@, r@),
        decreases s.len() - i,
    {
        proof {
            lemma_replace_step(s@, p@, r@, i as int);
        }
        if matches_at_chars(s, p, i) {
            let ghost before = out@;
            out = concat(&out, r);
            assert(out@ + replace(s@.skip(i + p.len()), p@, r@) =~= before + (r@ + replace(
                s@.skip(i + p.len()),
                p@,
                r@,
            )));
            i = i + p.len();
        } else {
            let ghost before = out@;
            out.push(s[i]);
            assert(out@ + replace(s@.skip(i + 1), p@, r@) =~= before + (seq![s@[i as int]]
                + replace(s@.skip(i + 1), p@, r@)));
            i = i + 1;
        }
    }
    assert(s@.skip(i as int).len() == 0);
    assert(out@ + replace(s@.skip(i as int), p@, r@) =~= out@);
    out
}

/// The position of the first `c` at or after `from`, and what `index_of`
/// says of the rest of `s` from there.
pub fn index_of_char_from(s: &Vec<char>, c: char, from: usize) -> (r: Option<usize>)
    requires
        from <= s.len(),
    ensures
        match r {
            Some(j) => from <= j < s.len() && index_of(s@.skip(from as int), c) == Some(
                j - from,
            ),
            None => index_of(s@.skip(from as int), c) is None,
        },
{
    let mut j = from;
    while j < s.len()
        invariant
            from <= j <= s.len(),
            forall|k: int| from <= k < j ==> s@[k] != c,
        decreases s.len() - j,
    {
        if s[j] == c {
            proof {
                let t = s@.skip(from as int);
                assert forall|k: int| 0 <= k < j - from implies t[k] != c by {
                    assert(t[k] == s@[k + from]);
                }
                lemma_index_of_at(t, c, j - from);
            }
            return Some(j);
        }
        j = j + 1;
    }
    proof {
        let t = s@.skip(from as int);
        assert forall|k: int| 0 <= k < t.len() implies t[k] != c by {
            assert(t[k] == s@[k + from]);
        }
        lemma_index_of_none(t, c);
    }
    None
}

/// A line as `str::lines` yields it.
pub fn strip_cr_chars(line: Vec<char>) -> (r: Vec<char>)
    ensures
        r@ == strip_cr(line@),
{
    let ghost orig = line@;
    let mut line = line;
    if line.len() > 0 && line[line.len() - 1] == '\r' {
        line.pop();
        assert(line@ =~= strip_cr(orig));
    }
    line
}

/// The lines of `s` (`str::lines`).
pub fn lines_of(s: &Vec<char>) -> (r: Vec<Vec<char>>)
    ensures
        texts(r@) == lines(s@),
{
    let mut out: Vec<Vec<char>> = Vec::new();
    let mut i: usize = 0;
    assert(s@.skip(0) =~= s@);
    while i < s.len()
        invariant
            i <= s.len(),
            texts(out@) + lines(s@.skip(i as int)) == lines(s@),
        decreases s.len() - i,
    {
        let ghost t = s@.skip(i as int);
        let ghost before = texts(out@);
        match index_of_char_from(s, '\n', i) {
            None => {
                let piece = slice(s, i, s.len());
                assert(piece@ =~= t);
                proof {
                    lemma_texts_push(out@, piece);
                }
                out.push(piece);
                assert(texts(out@) =~= before + seq![t]);
                i = s.len();
                assert(lines(s@.skip(i as int)) =~= seq![]);
                assert(texts(out@) + lines(s@.skip(i as int)) =~= before + lines(t));
            },
            Some(j) => {
                let piece = strip_cr_chars(slice(s, i, j));
                assert(t.take(j - i) =~= s@.subrange(i as int, j as int));
                proof {
                    lemma_texts_push(out@, piece);
                }
                out.push(piece);
                assert(texts(out@) =~= before + seq![strip_cr(t.take(j - i))]);
                assert(t.skip(j - i + 1) =~= s@.skip(j + 1));
                i = j + 1;
                assert(texts(out@) + lines(s@.skip(i as int)) =~= before + lines(t));
            },
        }
    }
    assert(lines(s@.skip(i as int)) =~= seq![]);
    assert(texts(out@) =~= lines(s@));
    out
}

/// The pieces of `s` between occurrences of `c` (`str::split`).
pub fn split_chars(s: &Vec<char>, c: char) -> (r: Vec<Vec<char>>)
    ensures
        texts(r@) == split(s@, c),
{
    let mut out: Vec<Vec<char>> = Vec::new();
    let mut i: usize = 0;
    assert(s@.skip(0) =~= s@);
    loop
        invariant_except_break
            texts(out@) + split(s@.skip(i as int), c) == split(s@, c),
        invariant
            i <= s.len(),
        ensures
            texts(out@) == split(s@, c),
        decreases s.len() - i,
    {
        let ghost t = s@.skip(i as int);
        let ghost before = texts(out@);
        match index_of_char_from(s, c, i) {
            None => {
                let piece = slice(s, i, s.len());
                assert(piece@ =~= t);
                proof {
                    lemma_texts_push(out@, piece);
                }
                out.push(piece);
                assert(texts(out@) =~= before + split(t, c));
                break;
            },
            Some(j) => {
                let piece = slice(s, i, j);
                assert(t.take(j - i) =~= s@.subrange(i as int, j as int));
                proof {
                    lemma_texts_push(out@, piece);
                }
                out.push(piece);
                assert(texts(out@) =~= before + seq![t.take(j - i)]);
                assert(t.skip(j - i + 1) =~= s@.skip(j + 1));
                i = j + 1;
                assert(texts(out@) + split(s@.skip(i as int), c) =~= before + split(t, c));
            },
        }
    }
    out
}

/// The pieces joined with `sep` between them (`[&str]::join`).
pub fn join_chars(parts: &Vec<Vec<char>>, sep: &Vec<char>) -> (r: Vec<char>)
    ensures
        r@ == join(texts(parts@), sep@),
{
    let mut out: Vec<char> = Vec::new();
    let mut i: usize = 0;
    while i < parts.len()
        invariant
            i <= parts.len(),
            out@ == join(texts(parts@).take(i as int), sep@),
        decreases parts.len() - i,
    {
        let ghost pv = texts(parts@).take(i + 1);
        assert(pv.drop_last() =~= texts(parts@).take(i as int));
        if i > 0 {
            out = concat(&out, sep);
        }
        out = concat(&out, &parts[i]);
        if i == 0 {
            assert(out@ =~= join(pv, sep@));
        }
        i = i + 1;
    }
    assert(texts(parts@).take(parts.len() as int) =~= texts(parts@));
    out
}

/// `s` with `p` stripped from its front as many times as it stands there
/// (`str::trim_start_matches` with a non-empty string).
pub open spec fn trim_start_matches(s: Seq<char>, p: Seq<char>) -> Seq<char>
    decreases s.len(),
{
    if p.len() > 0 && starts_with(s, p) {
        trim_start_matches(s.skip(p.len() as int), p)
    } else {
        s
    }
}

/// `s` with `p` stripped from its front as often as it stands there.
pub fn trim_start_matches_chars(s: &Vec<char>, p: &Vec<char>) -> (r: Vec<char>)
    ensures
        r@ == trim_start_matches(s@, p@),
{
    if p.len() == 0 {
        return s.clone();
    }
    let mut i: usize = 0;
    assert(s@.skip(0) =~= s@);
    while p.len() <= s.len() - i && matches_at_chars(s, p, i)
        invariant
            p.len() > 0,
            i <= s.len(),
            trim_start_matches(s@.skip(i as int), p@) == trim_start_matches(s@, p@),
        decreases s.len() - i,
    {
        let ghost t = s@.skip(i as int);
        assert(t.take(p.len() as int) =~= s@.subrange(i as int, i + p.len()));
        assert(t.skip(p.len() as int) =~= s@.skip(i + p.len()));
        i = i + p.len();
    }
    let ghost t = s@.skip(i as int);
    proof {
        if p.len() <= t.len() {
            assert(t.take(p.len() as int) =~= s@.subrange(i as int, i + p.len()));
        }
    }
    let r = slice(s, i, s.len());
    assert(r@ =~= t);
    r
}

/// The texts held by a sequence of strings.
pub open spec fn strings(v: Seq<String>) -> Seq<Seq<char>> {
    v.map_values(|x: String| x@)
}

/// The text an optional string holds.
pub open spec fn opt_text(o: Option<String>) -> Option<Seq<char>> {
    match o {
        Some(s) => Some(s@),
        None => None,
    }
}

pub proof fn lemma_strings_push(v: Seq<String>, x: String)
    ensures
        strings(v.push(x)) == strings(v).push(x@),
{
    assert(strings(v.push(x)) =~= strings(v).push(x@));
}

// ---------------------------------------------------------------------------
// Unsigned numbers (`FromStr` for the unsigned integer types)
// ---------------------------------------------------------------------------
pub open spec fn is_digit(c: char) -> bool {
    48 <= c as u32 <= 57
}

pub open spec fn all_digits(s: Seq<char>) -> bool {
    forall|i: int| 0 <= i < s.len() ==> is_digit(#[trigger] s[i])
}

/// The number that a run of decimal digits writes.
pub open spec fn digits_value(s: Seq<char>) -> nat
    decreases s.len(),
{
    if s.len() == 0 {
        0
    } else {
        digits_value(s.drop_last()) * 10 + (s.last() as u32 - 48) as nat
    }
}

/// The text after an optional leading `+`.
pub open spec fn sign_stripped(s: Seq<char>) -> Seq<char> {
    if s.len() > 0 && s[0] == '+' {
        s.drop_first()
    } else {
        s
    }
}

/// What `str::parse` gives for an unsigned type whose largest value is
/// `max`: an optional `+`, then at least one decimal digit, and a value
/// that fits.
pub open spec fn parse_unsigned(s: Seq<char>, max: nat) -> Option<nat> {
    let d = sign_stripped(s);
    if d.len() > 0 && all_digits(d) && digits_value(d) <= max {
        Some(digits_value(d))
    } else {
        None
    }
}

pub proof fn lemma_digits_value_grows(s: Seq<char>, i: int, j: int)
    requires
        0 <= i <= j <= s.len(),
        all_digits(s),
    ensures
        digits_value(s.take(i)) <= digits_value(s.take(j)),
    decreases j - i,
{
    if i < j {
        lemma_digits_value_grows(s, i, j - 1);
        assert(s.take(j).drop_last() =~= s.take(j - 1));
        assert(is_digit(s[j - 1]));
    }
}

/// The digits of `s` read as a number no larger than `max`.
pub fn parse_unsigned_chars(s: &Vec<char>, max: u64) -> (r: Option<u64>)
    ensures
        match r {
            Some(n) => parse_unsigned(s@, max as nat) == Some(n as nat),
            None => parse_unsigned(s@, max as nat) is None,
        },
{
    let start: usize = if s.len() > 0 && s[0] == '+' {
        1
    } else {
        0
    };
    let ghost d = sign_stripped(s@);
    assert(d =~= s@.skip(start as int));
    if start >= s.len() {
        return None;
    }
    let mut value: u64 = 0;
    let mut i = start;
    while i < s.len()
        invariant
            start <= i <= s.len(),
            d == s@.skip(start as int),
            d == sign_stripped(s@),
            forall|k: int| 0 <= k < i - start ==> is_digit(#[trigger] d[k]),
            value as nat == digits_value(d.take(i - start)),
            value <= max,
        decreases s.len() - i,
    {
        let c = s[i];
        let cu = c as u32;
        if cu < 48 || cu > 57 {
            assert(d[i - start] == c);
            assert(!is_digit(d[i - start]));
            assert(!all_digits(d));
            assert(parse_unsigned(s@, max as nat) is None);
            return None;
        }
        let digit = (cu - 48) as u64;
        let ghost t = d.take(i - start + 1);
        assert(t.drop_last() =~= d.take(i - start));
        assert(d[i - start] == c);
        assert(t.last() == c);
        if digit > max || value > (max - digit) / 10 {
            proof {
                assert(digits_value(t) > max) by (nonlinear_arith)
                    requires
                        digit > max || value > (max - digit) / 10,
                        digits_value(t) == value * 10 + digit,
                ;
                assert forall|k: int| 0 <= k < i - start + 1 implies is_digit(#[trigger] d[k]) by {
                    if k == i - start {
                        assert(d[k] == c);
                    }
                }
                if all_digits(d) {
                    lemma_digits_value_grows(d, i - start + 1, d.len() as int);
                    assert(d.take(d.len() as int) =~= d);
                }
                assert(parse_unsigned(s@, max as nat) is None);
            }
            return None;
        }
        assert(value * 10 + digit <= max) by (nonlinear_arith)
            requires
                digit <= max,
                value <= (max - digit) / 10,
        ;
        value = value * 10 + digit;
        i = i + 1;
    }
    assert(d.take(d.len() as int) =~= d);
    Some(value)
}

/// Whether two string slices hold the same characters.
pub fn str_eq(a: &str, b: &str) -> (r: bool)
    ensures
        r == (a@ == b@),
{
    eq_chars(&chars_of(a), &chars_of(b))
}

// ---------------------------------------------------------------------------
// Decimal numerals (`Display` for the unsigned integer types)
// ---------------------------------------------------------------------------
/// The decimal digit character of `d`.
pub open spec fn digit_char(d: nat) -> char {
    (48 + d) as char
}

/// The decimal numeral of `n`, without leading zeros.
pub open spec fn decimal(n: nat) -> Seq<char>
    decreases n,
{
    if n < 10 {
        seq![digit_char(n)]
    } else {
        decimal(n / 10) + seq![digit_char(n % 10)]
    }
}

/// The decimal numeral of `n`.
pub fn decimal_chars(n: u64) -> (r: Vec<char>)
    ensures
        r@ == decimal(n as nat),
    decreases n,
{
    if n < 10 {
        let c = char_of_digit(n);
        let mut v: Vec<char> = Vec::new();
        v.push(c);
        assert(v@ =~= seq![digit_char(n as nat)]);
        v
    } else {
        let mut v = decimal_chars(n / 10);
        v.push(char_of_digit(n % 10));
        v
    }
}

/// The character of a decimal digit.
fn char_of_digit(d: u64) -> (c: char)
    requires
        d < 10,
    ensures
        c == digit_char(d as nat),
{
    if d == 0 {
        '0'
    } else if d == 1 {
        '1'
    } else if d == 2 {
        '2'
    } else if d == 3 {
        '3'
    } else if d == 4 {
        '4'
    } else if d == 5 {
        '5'
    } else if d == 6 {
        '6'
    } else if d == 7 {
        '7'
    } else if d == 8 {
        '8'
    } else {
        '9'
    }
}

/// Writing a number in decimal and reading it back gives the number.
pub proof fn law_decimal_round_trip(n: nat, max: nat)
    requires
        n <= max,
    ensures
        parse_unsigned(decimal(n), max) == Some(n),
{
    lemma_decimal_digits(n);
    assert(decimal(n)[0] != '+');
    assert(sign_stripped(decimal(n)) == decimal(n));
}

pub proof fn lemma_decimal_digits(n: nat)
    ensures
        decimal(n).len() > 0,
        all_digits(decimal(n)),
        digits_value(decimal(n)) == n,
        is_digit(decimal(n)[0]),
    decreases n,
{
    if n >= 10 {
        lemma_decimal_digits(n / 10);
        let d = decimal(n);
        assert(d.drop_last() =~= decimal(n / 10));
        assert forall|i: int| 0 <= i < d.len() implies is_digit(#[trigger] d[i]) by {
            if i < d.len() - 1 {
                assert(d[i] == decimal(n / 10)[i]);
            }
        }
        assert(d[0] == decimal(n / 10)[0]);
        assert(d.last() == digit_char(n % 10));
        assert(digit_char(n % 10) as u32 == 48 + n % 10);
        assert(n == (n / 10) * 10 + n % 10);
        assert(digits_value(d) == digits_value(d.drop_last()) * 10 + (d.last() as u32 - 48) as nat);
        assert(digits_value(d) == (n / 10) * 10 + n % 10);
    } else {
        assert(decimal(n).drop_last() =~= Seq::<char>::empty());
        assert(digit_char(n) as u32 == 48 + n);
        let d = decimal(n);
        assert(digits_value(d) == digits_value(d.drop_last()) * 10 + (d.last() as u32 - 48) as nat);
        assert(digits_value(d.drop_last()) == 0);
    }
}

// ---------------------------------------------------------------------------
// Lines and their joining
// ---------------------------------------------------------------------------
/// Whether `c` does not occur in `s`.
pub open spec fn lacks(s: Seq<char>, c: char) -> bool {
    forall|i: int| 0 <= i < s.len() ==> s[i] != c
}

/// Joining two non-empty lists of pieces puts the separator between them.
pub proof fn lemma_join_append(a: Seq<Seq<char>>, b: Seq<Seq<char>>, sep: Seq<char>)
    requires
        a.len() > 0,
        b.len() > 0,
    ensures
        join(a + b, sep) == join(a, sep) + sep + join(b, sep),
    decreases b.len(),
{
    if b.len() == 1 {
        assert((a + b).drop_last() =~= a);
        assert((a + b).last() == b[0]);
    } else {
        lemma_join_append(a, b.drop_last(), sep);
        assert((a + b).drop_last() =~= a + b.drop_last());
        assert((a + b).last() == b.last());
        assert(join(a + b, sep) =~= join(a, sep) + sep + join(b, sep));
    }
}

/// Pieces without `c`, joined with line feeds, hold no `c` (other than a
/// line feed).
pub proof fn lemma_join_lacks(ls: Seq<Seq<char>>, c: char)
    requires
        c != '\n',
        forall|i: int| 0 <= i < ls.len() ==> #[trigger] lacks(ls[i], c),
    ensures
        lacks(join(ls, "\n"@), c),
    decreases ls.len(),
{
    reveal_strlit("\n");
    if ls.len() > 1 {
        lemma_join_lacks(ls.drop_last(), c);
        assert(lacks(ls[ls.len() - 1], c));
        let j = join(ls.drop_last(), "\n"@);
        assert forall|i: int| 0 <= i < join(ls, "\n"@).len() implies join(ls, "\n"@)[i] != c by {
            if i < j.len() {
                assert(join(ls, "\n"@)[i] == j[i]);
            } else if i > j.len() {
                assert(join(ls, "\n"@)[i] == ls.last()[i - j.len() - 1]);
            }
        }
    } else if ls.len() == 1 {
        assert(lacks(ls[0], c));
    }
}

/// Pieces joined with a separator hold no `c` where neither the pieces nor
/// the separator do.
pub proof fn lemma_join_sep_lacks(ls: Seq<Seq<char>>, sep: Seq<char>, c: char)
    requires
        lacks(sep, c),
        forall|i: int| 0 <= i < ls.len() ==> #[trigger] lacks(ls[i], c),
    ensures
        lacks(join(ls, sep), c),
    decreases ls.len(),
{
    if ls.len() > 1 {
        lemma_join_sep_lacks(ls.drop_last(), sep, c);
        assert(lacks(ls[ls.len() - 1], c));
        let j = join(ls.drop_last(), sep);
        assert forall|i: int| 0 <= i < join(ls, sep).len() implies join(ls, sep)[i] != c by {
            if i < j.len() {
                assert(join(ls, sep)[i] == j[i]);
            } else if i < j.len() + sep.len() {
                assert(join(ls, sep)[i] == sep[i - j.len()]);
            } else {
                assert(join(ls, sep)[i] == ls.last()[i - j.len() - sep.len()]);
            }
        }
    } else if ls.len() == 1 {
        assert(lacks(ls[0], c));
    }
}

/// The pieces of a text that holds no `x` hold none either.
pub proof fn lemma_split_lacks(s: Seq<char>, c: char, x: char)
    requires
        lacks(s, x),
    ensures
        forall|i: int| 0 <= i < split(s, c).len() ==> #[trigger] lacks(split(s, c)[i], x),
    decreases s.len(),
{
    lemma_index_of(s, c);
    match index_of(s, c) {
        None => {},
        Some(i) => {
            let rest = s.skip(i + 1);
            assert forall|j: int| 0 <= j < rest.len() implies rest[j] != x by {
                assert(rest[j] == s[j + i + 1]);
            }
            assert forall|j: int| 0 <= j < s.take(i).len() implies s.take(i)[j] != x by {
                assert(s.take(i)[j] == s[j]);
            }
            lemma_split_lacks(rest, c, x);
            assert(split(s, c) == seq![s.take(i)] + split(rest, c));
            assert forall|k: int| 0 <= k < split(s, c).len() implies #[trigger] lacks(split(s, c)[k], x) by {
                if k > 0 {
                    assert(split(s, c)[k] == split(rest, c)[k - 1]);
                }
            }
        },
    }
}

/// A text without line feeds that no piece holds is not in the pieces
/// joined with line feeds.
pub proof fn lemma_join_not_contains(ls: Seq<Seq<char>>, p: Seq<char>)
    requires
        p.len() > 0,
        lacks(p, '\n'),
        forall|i: int| 0 <= i < ls.len() ==> !contains(#[trigger] ls[i], p),
    ensures
        !contains(join(ls, "\n"@), p),
    decreases ls.len(),
{
    reveal_strlit("\n");
    let s = join(ls, "\n"@);
    lemma_find_from(s, p, 0);
    if ls.len() == 1 {
        assert(!contains(ls[0], p));
    } else if ls.len() > 1 {
        let j = join(ls.drop_last(), "\n"@);
        let l = ls.last();
        assert forall|i: int| 0 <= i < ls.len() - 1 implies !contains(#[trigger] ls.drop_last()[i], p) by {
            assert(ls.drop_last()[i] == ls[i]);
        }
        lemma_join_not_contains(ls.drop_last(), p);
        assert(!contains(ls[ls.len() - 1], p));
        assert(s =~= j + "\n"@ + l);
        if contains(s, p) {
            let k = find(s, p)->0;
            assert(matches_at(s, p, k));
            if k + p.len() <= j.len() {
                assert(s.subrange(k, k + p.len()) =~= j.subrange(k, k + p.len()));
                lemma_find_from(j, p, 0);
                assert(matches_at(j, p, k));
            } else if k > j.len() {
                let m = k - j.len() - 1;
                assert(s.subrange(k, k + p.len()) =~= l.subrange(m, m + p.len()));
                lemma_find_from(l, p, 0);
                assert(matches_at(l, p, m));
            } else {
                assert(s[j.len() as int] == '\n');
                assert(p[j.len() - k] == s.subrange(k, k + p.len())[j.len() - k]);
            }
        }
    }
}

/// Every line of `s` is free of line feeds, and of any character that `s`
/// does not hold.
pub proof fn lemma_lines_lack(s: Seq<char>, c: char)
    ensures
        forall|i: int| 0 <= i < lines(s).len() ==> lacks(#[trigger] lines(s)[i], '\n'),
        lacks(s, c) ==> forall|i: int| 0 <= i < lines(s).len() ==> lacks(#[trigger] lines(s)[i], c),
    decreases s.len(),
{
    if s.len() > 0 {
        lemma_index_of(s, '\n');
        match index_of(s, '\n') {
            None => {},
            Some(k) => {
                lemma_lines_lack(s.skip(k + 1), c);
                let first = strip_cr(s.take(k));
                let rest = lines(s.skip(k + 1));
                assert(lines(s) == seq![first] + rest);
                assert forall|i: int| 0 <= i < lines(s).len() implies lacks(#[trigger] lines(s)[i], '\n') by {
                    if i > 0 {
                        assert(lines(s)[i] == rest[i - 1]);
                    }
                }
                if lacks(s, c) {
                    assert(lacks(s.skip(k + 1), c)) by {
                        assert forall|j: int| 0 <= j < s.skip(k + 1).len() implies #[trigger] s.skip(k + 1)[j] != c by {
                            assert(s.skip(k + 1)[j] == s[j + k + 1]);
                        }
                    }
                    assert forall|i: int| 0 <= i < lines(s).len() implies lacks(#[trigger] lines(s)[i], c) by {
                        if i > 0 {
                            assert(lines(s)[i] == rest[i - 1]);
                        }
                    }
                }
            },
        }
    }
}

/// The lines of pieces joined with line feeds are the pieces, but for a
/// last piece that is empty.
pub proof fn lemma_lines_join(m: Seq<Seq<char>>)
    requires
        m.len() > 0,
        forall|i: int| 0 <= i < m.len() ==> lacks(#[trigger] m[i], '\n') && lacks(m[i], '\r'),
    ensures
        lines(join(m, "\n"@)) == if m.last().len() == 0 {
            m.drop_last()
        } else {
            m
        },
    decreases m.len(),
{
    reveal_strlit("\n");
    let m0 = m[0];
    assert(lacks(m0, '\n') && lacks(m0, '\r'));
    if m.len() == 1 {
        if m0.len() > 0 {
            lemma_index_of_none(m0, '\n');
            assert(strip_cr(m0) == m0);
        }
        assert(m.drop_last() =~= Seq::<Seq<char>>::empty());
        assert(seq![m0] =~= m);
    } else {
        let rest = m.drop_first();
        assert(m =~= seq![m0] + rest);
        lemma_join_append(seq![m0], rest, "\n"@);
        let j = join(rest, "\n"@);
        let s = m0 + "\n"@ + j;
        assert(join(m, "\n"@) == s);
        assert(s[m0.len() as int] == '\n');
        assert forall|k: int| 0 <= k < m0.len() implies s[k] != '\n' by {
            assert(s[k] == m0[k]);
        }
        lemma_index_of_at(s, '\n', m0.len() as int);
        assert(s.take(m0.len() as int) =~= m0);
        assert(s.skip(m0.len() as int + 1) =~= j);
        assert(strip_cr(m0) == m0) by {
            if m0.len() > 0 {
                assert(m0[m0.len() - 1] != '\r');
            }
        }
        assert forall|i: int| 0 <= i < rest.len() implies lacks(#[trigger] rest[i], '\n') && lacks(rest[i], '\r') by {
            assert(rest[i] == m[i + 1]);
            assert(lacks(m[i + 1], '\n') && lacks(m[i + 1], '\r'));
        }
        lemma_lines_join(rest);
        assert(lines(s) == seq![m0] + lines(j));
        if m.last().len() == 0 {
            assert(seq![m0] + rest.drop_last() =~= m.drop_last());
        } else {
            assert(seq![m0] + rest =~= m);
        }
    }
}

/// `trim_start` drops the leading whitespace: it is `s` from `a` on.
pub proof fn lemma_trim_start_at(s: Seq<char>) -> (a: int)
    ensures
        0 <= a <= s.len(),
        trim_start(s) == s.skip(a),
        forall|j: int| 0 <= j < a ==> is_ws(#[trigger] s[j]),
        a < s.len() ==> !is_ws(s[a]),
    decreases s.len(),
{
    if s.len() > 0 && is_ws(s[0]) {
        let a = lemma_trim_start_at(s.drop_first());
        assert(s.drop_first().skip(a) =~= s.skip(a + 1));
        assert forall|j: int| 0 <= j < a + 1 implies is_ws(#[trigger] s[j]) by {
            if j > 0 {
                assert(s[j] == s.drop_first()[j - 1]);
            }
        }
        if a + 1 < s.len() {
            assert(s[a + 1] == s.drop_first()[a]);
        }
        a + 1
    } else {
        assert(s.skip(0) =~= s);
        0
    }
}

/// `trim_end` drops the trailing whitespace: it is `s` up to `e`.
pub proof fn lemma_trim_end_at(s: Seq<char>) -> (e: int)
    ensures
        0 <= e <= s.len(),
        trim_end(s) == s.take(e),
        forall|j: int| e <= j < s.len() ==> is_ws(#[trigger] s[j]),
        e > 0 ==> !is_ws(s[e - 1]),
    decreases s.len(),
{
    if s.len() > 0 && is_ws(s.last()) {
        let e = lemma_trim_end_at(s.drop_last());
        assert(s.drop_last().take(e) =~= s.take(e));
        assert forall|j: int| e <= j < s.len() implies is_ws(#[trigger] s[j]) by {
            if j < s.len() - 1 {
                assert(s[j] == s.drop_last()[j]);
            }
        }
        if e > 0 {
            assert(s[e - 1] == s.drop_last()[e - 1]);
        }
        e
    } else {
        assert(s.take(s.len() as int) =~= s);
        s.len() as int
    }
}

/// Text made of whitespace trims to nothing.
pub proof fn lemma_trim_all_ws(s: Seq<char>)
    requires
        forall|j: int| 0 <= j < s.len() ==> is_ws(#[trigger] s[j]),
    ensures
        trim(s).len() == 0,
{
    lemma_trim_start_skip(s, s.len() as int);
    assert(s.skip(s.len() as int) =~= Seq::<char>::empty());
}

/// `split` never gives an empty list.
pub proof fn lemma_split_nonempty(s: Seq<char>, c: char)
    ensures
        split(s, c).len() >= 1,
    decreases s.len(),
{
    lemma_index_of(s, c);
    match index_of(s, c) {
        None => {},
        Some(i) => {
            lemma_split_nonempty(s.skip(i + 1), c);
        },
    }
}

/// Joining the pieces of `s` with the character it was split at gives `s`
/// back.
pub proof fn lemma_join_split(s: Seq<char>, c: char)
    ensures
        join(split(s, c), seq![c]) == s,
    decreases s.len(),
{
    lemma_index_of(s, c);
    match index_of(s, c) {
        None => {},
        Some(i) => {
            let rest = s.skip(i + 1);
            lemma_join_split(rest, c);
            lemma_split_nonempty(rest, c);
            assert(split(s, c) == seq![s.take(i)] + split(rest, c));
            lemma_join_append(seq![s.take(i)], split(rest, c), seq![c]);
            assert(s.take(i) + seq![c] + rest =~= s);
        },
    }
}

/// A text between two line feeds trims to the text trimmed.
pub proof fn lemma_trim_wrapped(d: Seq<char>)
    ensures
        trim(seq!['\n'] + d + seq!['\n']) == trim(d),
{
    let s = seq!['\n'] + d + seq!['\n'];
    let a = lemma_trim_start_at(d);
    assert forall|j: int| 0 <= j < 1 + a implies is_ws(s[j]) by {
        if j > 0 {
            assert(s[j] == d[j - 1]);
        }
    }
    lemma_trim_start_skip(s, 1 + a);
    let x = s.skip(1 + a);
    assert(x =~= d.skip(a) + seq!['\n']);
    if a < d.len() {
        assert(x[0] == d[a]);
        assert(trim_start(x) == x);
        assert forall|j: int| x.len() - 1 <= j < x.len() implies is_ws(x[j]) by {}
        lemma_trim_end_take(x, x.len() - 1);
        assert(x.take(x.len() - 1) =~= d.skip(a));
    } else {
        assert forall|j: int| 0 <= j < 1 implies is_ws(x[j]) by {}
        lemma_trim_start_skip(x, 1);
        assert(x.skip(1) =~= Seq::<char>::empty());
        assert(d.skip(a) =~= Seq::<char>::empty());
    }
}

} // verus!
