use vstd::prelude::*;
use crate::foreign::string_push;

verus! {

// ---------------------------------------------------------------------
// Conversions between `str`/`String` and character vectors
// ---------------------------------------------------------------------

/// The characters of a string slice, in order.
pub fn to_chars(s: &str) -> (r: Vec<char>)
    ensures
        r@ == s@,
{
    let mut r: Vec<char> = Vec::new();
    for c in it: s.chars()
        invariant
            r@ == it.seq().take(it.index() as int),
            it.seq() == s@,
    {
        r.push(c);
    }
    r
}

/// A `String` holding the given characters.
pub fn from_chars(v: &[char]) -> (r: String)
    ensures
        r@ == v@,
{
    let mut r = String::new();
    let mut i: usize = 0;
    while i < v.len()
        invariant
            i <= v.len(),
            r@ == v@.take(i as int),
        decreases v.len() - i,
    {
        string_push(&mut r, v[i]);
        assert(v@.take(i as int).push(v@[i as int]) == v@.take(i + 1));
        i = i + 1;
    }
    assert(v@.take(v.len() as int) == v@);
    r
}

/// The characters `s[a..b]` as a new vector.
pub fn copy_range(s: &[char], a: usize, b: usize) -> (r: Vec<char>)
    requires
        a <= b <= s.len(),
    ensures
        r@ == s@.subrange(a as int, b as int),
{
    let mut r: Vec<char> = Vec::new();
    let mut i: usize = a;
    while i < b
        invariant
            a <= i <= b <= s.len(),
            r@ == s@.subrange(a as int, i as int),
        decreases b - i,
    {
        r.push(s[i]);
        assert(s@.subrange(a as int, i as int).push(s@[i as int]) == s@.subrange(a as int, i + 1));
        i = i + 1;
    }
    r
}

/// Appends the characters of `p` to `out`.
pub fn push_all(out: &mut Vec<char>, p: &[char])
    ensures
        final(out)@ == old(out)@ + p@,
{
    let mut i: usize = 0;
    while i < p.len()
        invariant
            i <= p.len(),
            out@ == old(out)@ + p@.take(i as int),
        decreases p.len() - i,
    {
        out.push(p[i]);
        assert(old(out)@ + p@.take(i + 1) == old(out)@ + p@.take(i as int) + seq![p@[i as int]]);
        i = i + 1;
    }
    assert(p@.take(p.len() as int) == p@);
}

/// Appends the characters of a string slice to `out`.
pub fn push_str(out: &mut Vec<char>, p: &str)
    ensures
        final(out)@ == old(out)@ + p@,
{
    let v = to_chars(p);
    push_all(out, v.as_slice());
}

// ---------------------------------------------------------------------
// Whitespace and trimming
// ---------------------------------------------------------------------

/// Unicode `White_Space`: the characters that `char::is_whitespace`,
/// `str::trim` and friends treat as whitespace.
pub open spec fn is_ws(c: char) -> bool {
    let u = c as u32;
    ||| 0x9 <= u <= 0xd
    ||| u == 0x20
    ||| u == 0x85
    ||| u == 0xa0
    ||| u == 0x1680
    ||| 0x2000 <= u <= 0x200a
    ||| u == 0x2028
    ||| u == 0x2029
    ||| u == 0x202f
    ||| u == 0x205f
    ||| u == 0x3000
}

pub fn is_whitespace(c: char) -> (b: bool)
    ensures
        b == is_ws(c),
{
    let u = c as u32;
    (0x9 <= u && u <= 0xd) || u == 0x20 || u == 0x85 || u == 0xa0 || u == 0x1680 || (0x2000
        <= u && u <= 0x200a) || u == 0x2028 || u == 0x2029 || u == 0x202f || u == 0x205f || u
        == 0x3000
}

/// `s` without its leading whitespace.
pub open spec fn trim_start(s: Seq<char>) -> Seq<char>
    decreases s.len(),
{
    if s.len() > 0 && is_ws(s[0]) {
        trim_start(s.drop_first())
    } else {
        s
    }
}

/// `s` without its trailing whitespace.
pub open spec fn trim_end(s: Seq<char>) -> Seq<char>
    decreases s.len(),
{
    if s.len() > 0 && is_ws(s.last()) {
        trim_end(s.drop_last())
    } else {
        s
    }
}

/// `s` without leading and trailing whitespace (`str::trim`).
pub open spec fn trim(s: Seq<char>) -> Seq<char> {
    trim_end(trim_start(s))
}

/// The index of the first character that is not whitespace.
pub fn trim_start_index(s: &[char]) -> (i: usize)
    ensures
        i <= s.len(),
        s@.skip(i as int) == trim_start(s@),
{
    let mut i: usize = 0;
    assert(s@.skip(0) == s@);
    while i < s.len() && is_whitespace(s[i])
        invariant
            i <= s.len(),
            trim_start(s@.skip(i as int)) == trim_start(s@),
        decreases s.len() - i,
    {
        assert(s@.skip(i as int).drop_first() == s@.skip(i + 1));
        i = i + 1;
    }
    i
}

/// The end of `s[from..]` once trailing whitespace is dropped.
pub fn trim_end_index(s: &[char], from: usize) -> (j: usize)
    requires
        from <= s.len(),
    ensures
        from <= j <= s.len(),
        s@.subrange(from as int, j as int) == trim_end(s@.skip(from as int)),
{
    let mut j: usize = s.len();
    assert(s@.subrange(from as int, s.len() as int) == s@.skip(from as int));
    while j > from && is_whitespace(s[j - 1])
        invariant
            from <= j <= s.len(),
            trim_end(s@.subrange(from as int, j as int)) == trim_end(s@.skip(from as int)),
        decreases j,
    {
        assert(s@.subrange(from as int, j as int).drop_last() == s@.subrange(
            from as int,
            j - 1,
        ));
        j = j - 1;
    }
    j
}

/// `str::trim`.
pub fn trim_chars(s: &[char]) -> (r: Vec<char>)
    ensures
        r@ == trim(s@),
{
    let i = trim_start_index(s);
    let j = trim_end_index(s, i);
    copy_range(s, i, j)
}

/// `str::trim_end`.
pub fn trim_end_chars(s: &[char]) -> (r: Vec<char>)
    ensures
        r@ == trim_end(s@),
{
    let j = trim_end_index(s, 0);
    assert(s@.skip(0) == s@);
    copy_range(s, 0, j)
}


// ---------------------------------------------------------------------
// Prefixes, character search, substrings
// ---------------------------------------------------------------------

/// `s` starts with `p`.
pub open spec fn starts_with(s: Seq<char>, p: Seq<char>) -> bool {
    p.len() <= s.len() && s.take(p.len() as int) == p
}

pub fn has_prefix(s: &[char], p: &[char]) -> (b: bool)
    ensures
        b == starts_with(s@, p@),
{
    if p.len() > s.len() {
        return false;
    }
    let mut i: usize = 0;
    while i < p.len()
        invariant
            i <= p.len() <= s.len(),
            forall|k: int| 0 <= k < i ==> s@[k] == p@[k],
        decreases p.len() - i,
    {
        if s[i] != p[i] {
            assert(s@.take(p.len() as int)[i as int] != p@[i as int]);
            return false;
        }
        i = i + 1;
    }
    assert(s@.take(p.len() as int) == p@);
    true
}

/// `s` starts with the characters of the string slice `p`.
pub fn has_prefix_str(s: &[char], p: &str) -> (b: bool)
    ensures
        b == starts_with(s@, p@),
{
    let pv = to_chars(p);
    has_prefix(s, pv.as_slice())
}

/// The position of the first `c` at or after `i`, or `s.len()` when there is none.
pub open spec fn first_of_from(s: Seq<char>, c: char, i: int) -> int
    decreases s.len() - i,
{
    if i >= s.len() {
        s.len() as int
    } else if i >= 0 && s[i] == c {
        i
    } else {
        first_of_from(s, c, i + 1)
    }
}

/// The position of the first `c` in `s`, or `s.len()` when there is none.
pub open spec fn first_of(s: Seq<char>, c: char) -> int {
    first_of_from(s, c, 0)
}

/// The position of the last `c` before `j`, or `-1` when there is none.
pub open spec fn last_of_before(s: Seq<char>, c: char, j: int) -> int
    decreases j,
{
    if j <= 0 {
        -1
    } else if j <= s.len() && s[j - 1] == c {
        j - 1
    } else {
        last_of_before(s, c, j - 1)
    }
}

/// The position of the last `c` in `s`, or `-1` when there is none.
pub open spec fn last_of(s: Seq<char>, c: char) -> int {
    last_of_before(s, c, s.len() as int)
}

/// `s` holds the character `c`.
pub open spec fn has_char(s: Seq<char>, c: char) -> bool {
    exists|k: int| 0 <= k < s.len() && s[k] == c
}

/// What `s.split(c).next()` yields: `s` up to its first `c`.
pub open spec fn before_first(s: Seq<char>, c: char) -> Seq<char> {
    s.take(first_of(s, c))
}

/// What `s.rsplit(c).next()` yields: `s` after its last `c`.
pub open spec fn after_last(s: Seq<char>, c: char) -> Seq<char> {
    s.skip(last_of(s, c) + 1)
}

/// What `s.split(c).nth(1)` yields: the piece between the first and the second `c`.
pub open spec fn second_piece(s: Seq<char>, c: char) -> Option<Seq<char>> {
    if first_of(s, c) < s.len() {
        Some(before_first(s.skip(first_of(s, c) + 1), c))
    } else {
        None
    }
}

pub proof fn lemma_first_of_from(s: Seq<char>, c: char, i: int)
    requires
        0 <= i <= s.len(),
    ensures
        i <= first_of_from(s, c, i) <= s.len(),
        forall|k: int| i <= k < first_of_from(s, c, i) ==> s[k] != c,
        first_of_from(s, c, i) < s.len() ==> s[first_of_from(s, c, i)] == c,
    decreases s.len() - i,
{
    if i < s.len() && s[i] != c {
        lemma_first_of_from(s, c, i + 1);
    }
}

pub proof fn lemma_first_of(s: Seq<char>, c: char)
    ensures
        0 <= first_of(s, c) <= s.len(),
        forall|k: int| 0 <= k < first_of(s, c) ==> s[k] != c,
        first_of(s, c) < s.len() ==> s[first_of(s, c)] == c,
        has_char(s, c) <==> first_of(s, c) < s.len(),
{
    lemma_first_of_from(s, c, 0);
}

pub proof fn lemma_last_of_before(s: Seq<char>, c: char, j: int)
    requires
        0 <= j <= s.len(),
    ensures
        -1 <= last_of_before(s, c, j) < j,
        forall|k: int| last_of_before(s, c, j) < k < j ==> s[k] != c,
        last_of_before(s, c, j) >= 0 ==> s[last_of_before(s, c, j)] == c,
    decreases j,
{
    if j > 0 && s[j - 1] != c {
        lemma_last_of_before(s, c, j - 1);
    }
}


/// The position of the first `c` in `s` (`s.len()` when absent).
pub fn find_char(s: &[char], c: char) -> (k: usize)
    ensures
        k == first_of(s@, c),
        k <= s.len(),
{
    let mut i: usize = 0;
    while i < s.len() && s[i] != c
        invariant
            i <= s.len(),
            first_of_from(s@, c, i as int) == first_of(s@, c),
        decreases s.len() - i,
    {
        i = i + 1;
    }
    i
}

/// The position of the last `c` in `s`, if any.
pub fn rfind_char(s: &[char], c: char) -> (k: Option<usize>)
    ensures
        match k {
            Some(k) => k == last_of(s@, c) && k < s.len(),
            None => last_of(s@, c) == -1,
        },
{
    let mut j: usize = s.len();
    while j > 0 && s[j - 1] != c
        invariant
            j <= s.len(),
            last_of_before(s@, c, j as int) == last_of(s@, c),
        decreases j,
    {
        j = j - 1;
    }
    if j == 0 {
        None
    } else {
        Some(j - 1)
    }
}

pub fn contains_char(s: &[char], c: char) -> (b: bool)
    ensures
        b == has_char(s@, c),
{
    proof {
        lemma_first_of(s@, c);
    }
    find_char(s, c) < s.len()
}

/// `s.split(c).next()`.
pub fn before_first_chars(s: &[char], c: char) -> (r: Vec<char>)
    ensures
        r@ == before_first(s@, c),
{
    let k = find_char(s, c);
    copy_range(s, 0, k)
}

/// `s.rsplit(c).next()`.
pub fn after_last_chars(s: &[char], c: char) -> (r: Vec<char>)
    ensures
        r@ == after_last(s@, c),
{
    match rfind_char(s, c) {
        Some(k) => copy_range(s, k + 1, s.len()),
        None => {
            assert(s@.skip(0) == s@);
            copy_range(s, 0, s.len())
        },
    }
}

/// `s.split(c).nth(1)`.
pub fn second_piece_chars(s: &[char], c: char) -> (r: Option<Vec<char>>)
    ensures
        match r {
            Some(v) => second_piece(s@, c) == Some(v@),
            None => second_piece(s@, c) is None,
        },
{
    let k = find_char(s, c);
    if k < s.len() {
        let rest = copy_range(s, k + 1, s.len());
        assert(rest@ == s@.skip(k + 1));
        Some(before_first_chars(rest.as_slice(), c))
    } else {
        None
    }
}

/// `p` occurs in `s` at position `i`.
pub open spec fn occurs_at(s: Seq<char>, p: Seq<char>, i: int) -> bool {
    0 <= i && i + p.len() <= s.len() && s.subrange(i, i + p.len()) == p
}

/// `s` contains `p` (`str::contains`).
pub open spec fn contains(s: Seq<char>, p: Seq<char>) -> bool {
    exists|i: int| occurs_at(s, p, i)
}

pub fn matches_at(s: &[char], p: &[char], i: usize) -> (b: bool)
    ensures
        b == occurs_at(s@, p@, i as int),
{
    if i > s.len() || p.len() > s.len() - i {
        return false;
    }
    let mut k: usize = 0;
    while k < p.len()
        invariant
            i + p.len() <= s.len(),
            k <= p.len(),
            forall|m: int| 0 <= m < k ==> s@[i + m] == p@[m],
        decreases p.len() - k,
    {
        if s[i + k] != p[k] {
            assert(s@.subrange(i as int, i + p.len())[k as int] != p@[k as int]);
            return false;
        }
        k = k + 1;
    }
    assert(s@.subrange(i as int, i + p.len()) == p@);
    true
}

pub fn contains_chars(s: &[char], p: &[char]) -> (b: bool)
    ensures
        b == contains(s@, p@),
{
    if p.len() == 0 {
        assert(s@.subrange(0, 0) == p@);
        assert(occurs_at(s@, p@, 0));
        return true;
    }
    let mut i: usize = 0;
    while i < s.len()
        invariant
            i <= s.len(),
            p.len() > 0,
            forall|k: int| 0 <= k < i ==> !occurs_at(s@, p@, k),
        decreases s.len() - i,
    {
        if matches_at(s, p, i) {
            return true;
        }
        i = i + 1;
    }
    assert forall|k: int| !occurs_at(s@, p@, k) by {
        if 0 <= k && k < i {
        }
    }
    false
}

pub fn contains_str(s: &[char], p: &str) -> (b: bool)
    ensures
        b == contains(s@, p@),
{
    let pv = to_chars(p);
    contains_chars(s, pv.as_slice())
}


/// The character sequences held by a vector of character vectors.
pub open spec fn views(v: Seq<Vec<char>>) -> Seq<Seq<char>> {
    v.map_values(|x: Vec<char>| x@)
}

pub proof fn lemma_views_push(v: Seq<Vec<char>>, x: Vec<char>)
    ensures
        views(v.push(x)) == views(v).push(x@),
{
    assert(views(v.push(x)) =~= views(v).push(x@));
}

pub proof fn lemma_map_take_push<A, B>(s: Seq<A>, f: spec_fn(A) -> B, i: int)
    requires
        0 <= i < s.len(),
    ensures
        s.take(i + 1).map_values(f) == s.take(i).map_values(f).push(f(s[i])),
{
    assert(s.take(i + 1).map_values(f) =~= s.take(i).map_values(f).push(f(s[i])));
}


/// The character sequences held by a sequence of strings.
pub open spec fn string_views(v: Seq<String>) -> Seq<Seq<char>> {
    v.map_values(|x: String| x@)
}

pub proof fn lemma_string_views_push(v: Seq<String>, x: String)
    ensures
        string_views(v.push(x)) == string_views(v).push(x@),
{
    assert(string_views(v.push(x)) =~= string_views(v).push(x@));
}

pub proof fn lemma_string_views(v: Vec<String>)
    ensures
        v.deep_view() == string_views(v@),
{
    assert(v.deep_view() =~= string_views(v@));
}

// ---------------------------------------------------------------------
// Lines (`str::lines`)
// ---------------------------------------------------------------------

/// `l` without one trailing carriage return.
pub open spec fn strip_cr(l: Seq<char>) -> Seq<char> {
    if l.len() > 0 && l.last() == '\r' {
        l.drop_last()
    } else {
        l
    }
}

/// The lines of `s` as `str::lines` yields them: split at `\n`, a `\r`
/// right before a `\n` dropped, and no empty line after a final `\n`.
pub open spec fn lines(s: Seq<char>) -> Seq<Seq<char>>
    decreases s.len(),
{
    if s.len() == 0 {
        seq![]
    } else {
        let k = first_of(s, '\n');
        if k < s.len() {
            proof {
                lemma_first_of(s, '\n');
            }
            seq![strip_cr(s.take(k))] + lines(s.skip(k + 1))
        } else {
            seq![s]
        }
    }
}

pub fn strip_cr_chars(l: Vec<char>) -> (r: Vec<char>)
    ensures
        r@ == strip_cr(l@),
{
    let mut l = l;
    if l.len() > 0 && l[l.len() - 1] == '\r' {
        l.pop();
    }
    l
}

/// `str::lines`, each line as a character vector.
pub fn lines_of(s: &[char]) -> (r: Vec<Vec<char>>)
    ensures
        views(r@) == lines(s@),
{
    let mut r: Vec<Vec<char>> = Vec::new();
    let mut i: usize = 0;
    assert(s@.skip(0) == s@);
    while i < s.len()
        invariant
            i <= s.len(),
            views(r@) + lines(s@.skip(i as int)) == lines(s@),
        decreases s.len() - i,
    {
        let t = copy_range(s, i, s.len());
        assert(t@ == s@.skip(i as int));
        let k = find_char(t.as_slice(), '\n');
        proof {
            lemma_first_of(t@, '\n');
        }
        if k < t.len() {
            let line = strip_cr_chars(copy_range(t.as_slice(), 0, k));
            let ghost before = views(r@);
            r.push(line);
            assert(views(r@) =~= before.push(line@));
            assert(t@.skip(k + 1) == s@.skip(i + k + 1));
            assert(views(r@) + lines(s@.skip(i + k + 1)) == before + lines(t@));
            i = i + k + 1;
        } else {
            let ghost before = views(r@);
            r.push(t);
            assert(views(r@) =~= before.push(t@));
            assert(s@.skip(s.len() as int) == Seq::<char>::empty());
            assert(views(r@) + lines(s@.skip(s.len() as int)) == before + lines(t@));
            i = s.len();
        }
    }
    assert(s@.skip(s.len() as int) == Seq::<char>::empty());
    assert(views(r@) + lines(s@.skip(i as int)) == views(r@));
    r
}

// ---------------------------------------------------------------------
// Replacing and counting occurrences
// ---------------------------------------------------------------------

/// `str::replace`: every occurrence of `from`, found left to right without
/// overlap, replaced by `to` (for a non-empty `from`).
pub open spec fn replace_all(s: Seq<char>, from: Seq<char>, to: Seq<char>) -> Seq<char>
    decreases s.len(),
{
    if s.len() == 0 || from.len() == 0 {
        s
    } else if starts_with(s, from) {
        to + replace_all(s.skip(from.len() as int), from, to)
    } else {
        seq![s[0]] + replace_all(s.drop_first(), from, to)
    }
}

/// The number of non-overlapping occurrences of `p`, found left to right
/// (`s.matches(p).count()` for a non-empty `p`).
pub open spec fn count_matches(s: Seq<char>, p: Seq<char>) -> nat
    decreases s.len(),
{
    if s.len() == 0 || p.len() == 0 {
        0
    } else if starts_with(s, p) {
        1 + count_matches(s.skip(p.len() as int), p)
    } else {
        count_matches(s.drop_first(), p)
    }
}

proof fn lemma_skip_prefix(s: Seq<char>, p: Seq<char>, i: int)
    requires
        0 <= i <= s.len(),
    ensures
        starts_with(s.skip(i), p) == occurs_at(s, p, i),
{
    if i + p.len() <= s.len() {
        assert(s.skip(i).take(p.len() as int) == s.subrange(i, i + p.len()));
    }
}

pub fn replace_chars(s: &[char], from: &[char], to: &[char]) -> (r: Vec<char>)
    requires
        from.len() > 0,
    ensures
        r@ == replace_all(s@, from@, to@),
{
    let mut out: Vec<char> = Vec::new();
    let mut i: usize = 0;
    assert(s@.skip(0) == s@);
    while i < s.len()
        invariant
            i <= s.len(),
            from.len() > 0,
            out@ + replace_all(s@.skip(i as int), from@, to@) == replace_all(s@, from@, to@),
        decreases s.len() - i,
    {
        proof {
            lemma_skip_prefix(s@, from@, i as int);
        }
        if matches_at(s, from, i) {
            let ghost before = out@;
            push_all(&mut out, to);
            assert(s@.skip(i as int).skip(from.len() as int) == s@.skip(i + from.len()));
            assert(before + (to@ + replace_all(s@.skip(i + from.len()), from@, to@)) == out@
                + replace_all(s@.skip(i + from.len()), from@, to@));
            i = i + from.len();
        } else {
            let ghost before = out@;
            out.push(s[i]);
            assert(s@.skip(i as int).drop_first() == s@.skip(i + 1));
            assert(before + (seq![s@[i as int]] + replace_all(s@.skip(i + 1), from@, to@)) == out@
                + replace_all(s@.skip(i + 1), from@, to@));
            i = i + 1;
        }
    }
    assert(s@.skip(s.len() as int) == Seq::<char>::empty());
    assert(out@ + replace_all(s@.skip(i as int), from@, to@) == out@);
    out
}

pub fn count_matches_chars(s: &[char], p: &[char]) -> (n: usize)
    requires
        p.len() > 0,
    ensures
        n == count_matches(s@, p@),
{
    let mut n: usize = 0;
    let mut i: usize = 0;
    assert(s@.skip(0) == s@);
    while i < s.len()
        invariant
            i <= s.len(),
            p.len() > 0,
            n <= i,
            n + count_matches(s@.skip(i as int), p@) == count_matches(s@, p@),
        decreases s.len() - i,
    {
        proof {
            lemma_skip_prefix(s@, p@, i as int);
        }
        if matches_at(s, p, i) {
            assert(s@.skip(i as int).skip(p.len() as int) == s@.skip(i + p.len()));
            n = n + 1;
            i = i + p.len();
        } else {
            assert(s@.skip(i as int).drop_first() == s@.skip(i + 1));
            i = i + 1;
        }
    }
    assert(s@.skip(s.len() as int) == Seq::<char>::empty());
    n
}

// ---------------------------------------------------------------------
// Joining
// ---------------------------------------------------------------------

/// The parts, separated by `sep` (`[..].join(sep)`).
pub open spec fn join(parts: Seq<Seq<char>>, sep: Seq<char>) -> Seq<char>
    decreases parts.len(),
{
    if parts.len() == 0 {
        seq![]
    } else if parts.len() == 1 {
        parts[0]
    } else {
        join(parts.drop_last(), sep) + sep + parts.last()
    }
}

pub fn join_chars(parts: &Vec<Vec<char>>, sep: &[char]) -> (r: Vec<char>)
    ensures
        r@ == join(views(parts@), sep@),
{
    let mut out: Vec<char> = Vec::new();
    let mut i: usize = 0;
    while i < parts.len()
        invariant
            i <= parts.len(),
            out@ == join(views(parts@).take(i as int), sep@),
        decreases parts.len() - i,
    {
        let ghost pv = views(parts@);
        assert(pv.take(i + 1).drop_last() == pv.take(i as int));
        if i > 0 {
            push_all(&mut out, sep);
        }
        push_all(&mut out, parts[i].as_slice());
        assert(pv.take(i + 1).last() == parts[i as int]@);
        if i == 0 {
            assert(out@ == parts[0]@);
        }
        i = i + 1;
    }
    assert(views(parts@).take(parts.len() as int) == views(parts@));
    out
}


// ---------------------------------------------------------------------
// Decimal numbers
// ---------------------------------------------------------------------

/// The ASCII digit for `d` (0..=9).
pub open spec fn digit_char(d: int) -> char {
    if d == 0 {
        '0'
    } else if d == 1 {
        '1'
    } else if d == 2 {
        '2'
    } else if d == 3 {
        '3'
    } else if d == 4 {
        '4'
    } else if d == 5 {
        '5'
    } else if d == 6 {
        '6'
    } else if d == 7 {
        '7'
    } else if d == 8 {
        '8'
    } else {
        '9'
    }
}

/// The decimal representation of `n`, without leading zeros.
pub open spec fn dec(n: nat) -> Seq<char>
    decreases n,
{
    if n < 10 {
        seq![digit_char(n as int)]
    } else {
        dec(n / 10).push(digit_char((n % 10) as int))
    }
}

/// The decimal representation of `n`, padded with zeros to at least `w` digits.
pub open spec fn dec_padded(n: nat, w: nat) -> Seq<char> {
    if dec(n).len() < w {
        Seq::new((w - dec(n).len()) as nat, |i: int| '0') + dec(n)
    } else {
        dec(n)
    }
}

fn digit(d: u128) -> (c: char)
    requires
        d < 10,
    ensures
        c == digit_char(d as int),
{
    if d == 0 {
        '0'
    } else if d == 1 {
        '1'
    } else if d == 2 {
        '2'
    } else if d == 3 {
        '3'
    } else if d == 4 {
        '4'
    } else if d == 5 {
        '5'
    } else if d == 6 {
        '6'
    } else if d == 7 {
        '7'
    } else if d == 8 {
        '8'
    } else {
        '9'
    }
}

/// Appends the decimal representation of `n`.
pub fn push_dec(out: &mut Vec<char>, n: u128)
    ensures
        final(out)@ == old(out)@ + dec(n as nat),
    decreases n,
{
    if n < 10 {
        out.push(digit(n));
    } else {
        push_dec(out, n / 10);
        out.push(digit(n % 10));
        assert(old(out)@ + dec(n as nat) == old(out)@ + dec((n / 10) as nat) + seq![
            digit_char((n % 10) as int),
        ]);
    }
}

/// The decimal representation of `n` (`n.to_string()`).
pub fn dec_chars(n: u128) -> (r: Vec<char>)
    ensures
        r@ == dec(n as nat),
{
    let mut r: Vec<char> = Vec::new();
    push_dec(&mut r, n);
    r
}

pub proof fn lemma_dec_len(n: nat)
    ensures
        dec(n).len() >= 1,
    decreases n,
{
    if n >= 10 {
        lemma_dec_len(n / 10);
    }
}

/// `format!("{:0w$}", n)`.
pub fn dec_padded_chars(n: u128, w: usize) -> (r: Vec<char>)
    ensures
        r@ == dec_padded(n as nat, w as nat),
{
    let d = dec_chars(n);
    if d.len() < w {
        let mut r: Vec<char> = Vec::new();
        let mut i: usize = 0;
        while i < w - d.len()
            invariant
                d.len() < w,
                i <= w - d.len(),
                r@ == Seq::new(i as nat, |k: int| '0'),
            decreases w - d.len() - i,
        {
            r.push('0');
            assert(r@ == Seq::new((i + 1) as nat, |k: int| '0'));
            i = i + 1;
        }
        push_all(&mut r, d.as_slice());
        r
    } else {
        d
    }
}

/// An ASCII decimal digit.
pub open spec fn is_digit(c: char) -> bool {
    48 <= (c as u32) <= 57
}

/// The value of a run of ASCII digits.
pub open spec fn digits_value(s: Seq<char>) -> nat
    decreases s.len(),
{
    if s.len() == 0 {
        0
    } else {
        digits_value(s.drop_last()) * 10 + ((s.last() as u32) - 48) as nat
    }
}

pub open spec fn all_digits(s: Seq<char>) -> bool {
    forall|i: int| 0 <= i < s.len() ==> is_digit(#[trigger] s[i])
}

/// What `s.parse::<u16>()` accepts: an optional `+`, then one or more
/// ASCII digits whose value fits in a `u16`.
pub open spec fn parse_u16(s: Seq<char>) -> Option<u16> {
    let d = if s.len() > 0 && s[0] == '+' {
        s.drop_first()
    } else {
        s
    };
    if d.len() > 0 && all_digits(d) && digits_value(d) <= 65535 {
        Some(digits_value(d) as u16)
    } else {
        None
    }
}

proof fn lemma_digits_value_prefix(s: Seq<char>, k: int)
    requires
        0 <= k <= s.len(),
        all_digits(s),
    ensures
        digits_value(s.take(k)) <= digits_value(s),
    decreases s.len(),
{
    if k < s.len() {
        assert(s.drop_last().take(k) == s.take(k));
        lemma_digits_value_prefix(s.drop_last(), k);
    } else {
        assert(s.take(k) == s);
    }
}

/// `s.parse::<u16>().ok()`.
pub fn parse_u16_chars(s: &[char]) -> (r: Option<u16>)
    ensures
        r == parse_u16(s@),
{
    let start: usize = if s.len() > 0 && s[0] == '+' {
        1
    } else {
        0
    };
    let ghost d = if s.len() > 0 && s[0] == '+' {
        s@.drop_first()
    } else {
        s@
    };
    assert(d == s@.skip(start as int));
    if start >= s.len() {
        return None;
    }
    let mut v: u32 = 0;
    let mut i: usize = start;
    while i < s.len()
        invariant
            start <= i <= s.len(),
            d == s@.skip(start as int),
            d == (if s@.len() > 0 && s@[0] == '+' {
                s@.drop_first()
            } else {
                s@
            }),
            all_digits(d.take(i - start)),
            v == digits_value(d.take(i - start)),
            v <= 65535,
        decreases s.len() - i,
    {
        let c = s[i];
        let u = c as u32;
        assert(d[i - start] == c);
        if u < 48 || u > 57 {
            assert(!is_digit(d[i - start]));
            return None;
        }
        let ghost k = i - start;
        assert(d.take(k + 1).drop_last() == d.take(k));
        assert(d.take(k + 1).last() == c);
        assert(digits_value(d.take(k + 1)) == digits_value(d.take(k)) * 10 + (u - 48));
        assert(all_digits(d.take(k + 1)));
        v = v * 10 + (u - 48);
        if v > 65535 {
            proof {
                if all_digits(d) {
                    lemma_digits_value_prefix(d, i - start + 1);
                }
            }
            return None;
        }
        i = i + 1;
    }
    assert(d.take(i - start) == d);
    Some(v as u16)
}

/// The value of a hexadecimal digit (either case).
pub open spec fn hex_val(c: char) -> Option<nat> {
    let u = c as u32;
    if 48 <= u <= 57 {
        Some((u - 48) as nat)
    } else if 97 <= u <= 102 {
        Some((u - 87) as nat)
    } else if 65 <= u <= 70 {
        Some((u - 55) as nat)
    } else {
        None
    }
}

/// What `u8::from_str_radix` accepts for the two characters `a`, `b`
/// in base 16: two hexadecimal digits, or `+` and one digit.
pub open spec fn hex_pair(a: char, b: char) -> Option<u8> {
    if a == '+' {
        match hex_val(b) {
            Some(y) => Some(y as u8),
            None => None,
        }
    } else {
        match (hex_val(a), hex_val(b)) {
            (Some(x), Some(y)) => Some((16 * x + y) as u8),
            _ => None,
        }
    }
}

fn hex_digit_value(c: char) -> (r: Option<u32>)
    ensures
        match r {
            Some(v) => hex_val(c) == Some(v as nat) && v < 16,
            None => hex_val(c) is None,
        },
{
    let u = c as u32;
    if 48 <= u && u <= 57 {
        Some(u - 48)
    } else if 97 <= u && u <= 102 {
        Some(u - 87)
    } else if 65 <= u && u <= 70 {
        Some(u - 55)
    } else {
        None
    }
}

pub fn hex_pair_value(a: char, b: char) -> (r: Option<u8>)
    ensures
        r == hex_pair(a, b),
{
    if a == '+' {
        match hex_digit_value(b) {
            Some(y) => Some(y as u8),
            None => None,
        }
    } else {
        match (hex_digit_value(a), hex_digit_value(b)) {
            (Some(x), Some(y)) => Some((16 * x + y) as u8),
            _ => None,
        }
    }
}

/// The upper-case hexadecimal digit for `d` (0..=15).
pub open spec fn hex_upper(d: int) -> char {
    if d < 10 {
        digit_char(d)
    } else if d == 10 {
        'A'
    } else if d == 11 {
        'B'
    } else if d == 12 {
        'C'
    } else if d == 13 {
        'D'
    } else if d == 14 {
        'E'
    } else {
        'F'
    }
}

pub fn hex_upper_char(d: u8) -> (c: char)
    requires
        d < 16,
    ensures
        c == hex_upper(d as int),
{
    if d < 10 {
        digit(d as u128)
    } else if d == 10 {
        'A'
    } else if d == 11 {
        'B'
    } else if d == 12 {
        'C'
    } else if d == 13 {
        'D'
    } else if d == 14 {
        'E'
    } else {
        'F'
    }
}

// ---------------------------------------------------------------------
// ASCII case and UTF-8
// ---------------------------------------------------------------------

/// The code of `c` with ASCII upper-case letters mapped to lower case.
pub open spec fn ascii_lower_code(c: char) -> u32 {
    let u = c as u32;
    if 65 <= u <= 90 {
        (u + 32) as u32
    } else {
        u
    }
}

/// `str::eq_ignore_ascii_case`.
pub open spec fn eq_ignore_ascii_case(a: Seq<char>, b: Seq<char>) -> bool {
    a.len() == b.len() && forall|i: int|
        0 <= i < a.len() ==> #[trigger] ascii_lower_code(a[i]) == ascii_lower_code(b[i])
}

fn ascii_lower_code_of(c: char) -> (r: u32)
    ensures
        r == ascii_lower_code(c),
{
    let u = c as u32;
    if 65 <= u && u <= 90 {
        u + 32
    } else {
        u
    }
}

pub fn eq_ignore_ascii_case_chars(a: &[char], b: &[char]) -> (r: bool)
    ensures
        r == eq_ignore_ascii_case(a@, b@),
{
    if a.len() != b.len() {
        return false;
    }
    let mut i: usize = 0;
    while i < a.len()
        invariant
            i <= a.len() == b.len(),
            forall|k: int| 0 <= k < i ==> #[trigger] ascii_lower_code(a@[k]) == ascii_lower_code(
                b@[k],
            ),
        decreases a.len() - i,
    {
        if ascii_lower_code_of(a[i]) != ascii_lower_code_of(b[i]) {
            return false;
        }
        i = i + 1;
    }
    true
}

/// The UTF-8 encoding of `c`.
pub open spec fn utf8_of(c: char) -> Seq<u8> {
    let u = c as u32;
    if u < 0x80 {
        seq![u as u8]
    } else if u < 0x800 {
        seq![(0xC0 + u / 64) as u8, (0x80 + u % 64) as u8]
    } else if u < 0x10000 {
        seq![(0xE0 + u / 4096) as u8, (0x80 + (u / 64) % 64) as u8, (0x80 + u % 64) as u8]
    } else {
        seq![
            (0xF0 + u / 262144) as u8,
            (0x80 + (u / 4096) % 64) as u8,
            (0x80 + (u / 64) % 64) as u8,
            (0x80 + u % 64) as u8,
        ]
    }
}

/// The UTF-8 encoding of a character sequence.
pub open spec fn utf8_bytes(s: Seq<char>) -> Seq<u8>
    decreases s.len(),
{
    if s.len() == 0 {
        seq![]
    } else {
        utf8_bytes(s.drop_last()) + utf8_of(s.last())
    }
}

/// A UTF-8 continuation byte.
pub open spec fn is_continuation(b: u8) -> bool {
    0x80 <= b < 0xC0
}

proof fn lemma_utf8_of_shape(c: char)
    ensures
        1 <= utf8_of(c).len() <= 4,
        !is_continuation(utf8_of(c)[0]),
        forall|k: int| 1 <= k < utf8_of(c).len() ==> is_continuation(#[trigger] utf8_of(c)[k]),
        utf8_of(c).len() == 1 <==> utf8_of(c)[0] < 0x80,
        utf8_of(c).len() == 2 <==> 0xC0 <= utf8_of(c)[0] < 0xE0,
        utf8_of(c).len() == 3 <==> 0xE0 <= utf8_of(c)[0] < 0xF0,
        utf8_of(c).len() == 4 <==> 0xF0 <= utf8_of(c)[0],
{
    let u = c as u32;
    assert(u <= 0x10FFFF);
    if u >= 0x10000 {
        assert(u / 262144 <= 4);
    }
}

proof fn lemma_utf8_of_injective(c1: char, c2: char)
    requires
        utf8_of(c1) == utf8_of(c2),
    ensures
        c1 == c2,
{
    lemma_utf8_of_shape(c1);
    lemma_utf8_of_shape(c2);
    let u1 = c1 as u32;
    let u2 = c2 as u32;
    let e = utf8_of(c1);
    if e.len() == 1 {
        assert(u1 < 0x80 && u2 < 0x80);
        assert(e[0] == u1 as u8 && e[0] == u2 as u8);
    } else if e.len() == 2 {
        assert(0x80 <= u1 < 0x800 && 0x80 <= u2 < 0x800);
        assert(u1 / 64 == u2 / 64 && u1 % 64 == u2 % 64);
    } else if e.len() == 3 {
        assert(0x800 <= u1 < 0x10000 && 0x800 <= u2 < 0x10000);
        assert(u1 / 4096 == u2 / 4096 && (u1 / 64) % 64 == (u2 / 64) % 64 && u1 % 64 == u2 % 64);
        assert(u1 / 64 == (u1 / 4096) * 64 + (u1 / 64) % 64);
        assert(u2 / 64 == (u2 / 4096) * 64 + (u2 / 64) % 64);
    } else {
        assert(u1 >= 0x10000 && u2 >= 0x10000);
        assert(u1 / 262144 == u2 / 262144 && (u1 / 4096) % 64 == (u2 / 4096) % 64 && (u1 / 64) % 64
            == (u2 / 64) % 64 && u1 % 64 == u2 % 64);
        assert(u1 / 4096 == (u1 / 262144) * 64 + (u1 / 4096) % 64);
        assert(u2 / 4096 == (u2 / 262144) * 64 + (u2 / 4096) % 64);
        assert(u1 / 64 == (u1 / 4096) * 64 + (u1 / 64) % 64);
        assert(u2 / 64 == (u2 / 4096) * 64 + (u2 / 64) % 64);
    }
    assert(u1 == u2);
}

/// UTF-8 encodes different texts differently.
pub proof fn lemma_utf8_injective(a: Seq<char>, b: Seq<char>)
    requires
        utf8_bytes(a) == utf8_bytes(b),
    ensures
        a == b,
    decreases a.len() + b.len(),
{
    if a.len() == 0 || b.len() == 0 {
        if a.len() > 0 {
            lemma_utf8_of_shape(a.last());
        }
        if b.len() > 0 {
            lemma_utf8_of_shape(b.last());
        }
        assert(a.len() == 0 && b.len() == 0);
        assert(a =~= b);
    } else {
        let e1 = utf8_of(a.last());
        let e2 = utf8_of(b.last());
        let p1 = utf8_bytes(a.drop_last());
        let p2 = utf8_bytes(b.drop_last());
        let x = utf8_bytes(a);
        lemma_utf8_of_shape(a.last());
        lemma_utf8_of_shape(b.last());
        assert(x == p1 + e1);
        assert(x == p2 + e2);
        if e1.len() < e2.len() {
            let k = e2.len() - e1.len();
            assert(x[p1.len() as int] == e1[0]);
            assert(x[p2.len() + k] == e2[k]);
            assert(p1.len() == p2.len() + k);
            assert(false);
        } else if e2.len() < e1.len() {
            let k = e1.len() - e2.len();
            assert(x[p2.len() as int] == e2[0]);
            assert(x[p1.len() + k] == e1[k]);
            assert(p2.len() == p1.len() + k);
            assert(false);
        }
        assert(e1 =~= x.skip(p1.len() as int));
        assert(e2 =~= x.skip(p2.len() as int));
        assert(p1 =~= x.take(p1.len() as int));
        assert(p2 =~= x.take(p2.len() as int));
        lemma_utf8_of_injective(a.last(), b.last());
        lemma_utf8_injective(a.drop_last(), b.drop_last());
        assert(a =~= a.drop_last().push(a.last()));
        assert(b =~= b.drop_last().push(b.last()));
    }
}

/// The UTF-8 encoding of `c`, as a vector of bytes.
pub fn utf8_of_char(c: char) -> (r: Vec<u8>)
    ensures
        r@ == utf8_of(c),
{
    let u = c as u32;
    let mut r: Vec<u8> = Vec::new();
    if u < 0x80 {
        r.push(u as u8);
    } else if u < 0x800 {
        r.push((0xC0 + u / 64) as u8);
        r.push((0x80 + u % 64) as u8);
    } else if u < 0x10000 {
        r.push((0xE0 + u / 4096) as u8);
        r.push((0x80 + (u / 64) % 64) as u8);
        r.push((0x80 + u % 64) as u8);
    } else {
        r.push((0xF0 + u / 262144) as u8);
        r.push((0x80 + (u / 4096) % 64) as u8);
        r.push((0x80 + (u / 64) % 64) as u8);
        r.push((0x80 + u % 64) as u8);
    }
    assert(r@ == utf8_of(c));
    r
}


/// Whether the characters equal those of a string slice.
pub fn equals_str(s: &[char], p: &str) -> (b: bool)
    ensures
        b == (s@ == p@),
{
    let pv = to_chars(p);
    if pv.len() != s.len() {
        return false;
    }
    let r = has_prefix(s, pv.as_slice());
    assert(s@.take(pv.len() as int) == s@);
    r
}


// ---------------------------------------------------------------------
// Trimming a given character, dropping whitespace
// ---------------------------------------------------------------------

/// `s` without leading occurrences of `c`.
pub open spec fn strip_start_char(s: Seq<char>, c: char) -> Seq<char>
    decreases s.len(),
{
    if s.len() > 0 && s[0] == c {
        strip_start_char(s.drop_first(), c)
    } else {
        s
    }
}

/// `s` without trailing occurrences of `c`.
pub open spec fn strip_end_char(s: Seq<char>, c: char) -> Seq<char>
    decreases s.len(),
{
    if s.len() > 0 && s.last() == c {
        strip_end_char(s.drop_last(), c)
    } else {
        s
    }
}

/// `s.trim_matches(c)`.
pub open spec fn trim_char(s: Seq<char>, c: char) -> Seq<char> {
    strip_end_char(strip_start_char(s, c), c)
}

pub fn trim_char_chars(s: &[char], c: char) -> (r: Vec<char>)
    ensures
        r@ == trim_char(s@, c),
{
    let mut i: usize = 0;
    assert(s@.skip(0) == s@);
    while i < s.len() && s[i] == c
        invariant
            i <= s.len(),
            strip_start_char(s@.skip(i as int), c) == strip_start_char(s@, c),
        decreases s.len() - i,
    {
        assert(s@.skip(i as int).drop_first() == s@.skip(i + 1));
        i = i + 1;
    }
    let mut j: usize = s.len();
    assert(s@.subrange(i as int, s.len() as int) == s@.skip(i as int));
    while j > i && s[j - 1] == c
        invariant
            i <= j <= s.len(),
            strip_end_char(s@.subrange(i as int, j as int), c) == strip_end_char(
                s@.skip(i as int),
                c,
            ),
        decreases j,
    {
        assert(s@.subrange(i as int, j as int).drop_last() == s@.subrange(i as int, j - 1));
        j = j - 1;
    }
    copy_range(s, i, j)
}

/// `s` with its whitespace dropped.
pub open spec fn drop_ws(s: Seq<char>) -> Seq<char> {
    s.filter(|c: char| !is_ws(c))
}

pub fn drop_ws_chars(s: &[char]) -> (r: Vec<char>)
    ensures
        r@ == drop_ws(s@),
{
    let mut r: Vec<char> = Vec::new();
    let mut i: usize = 0;
    while i < s.len()
        invariant
            i <= s.len(),
            r@ == drop_ws(s@.take(i as int)),
        decreases s.len() - i,
    {
        assert(s@.take(i + 1).drop_last() == s@.take(i as int));
        assert(s@.take(i + 1).last() == s@[i as int]);
        reveal_with_fuel(Seq::filter, 1);
        if !is_whitespace(s[i]) {
            r.push(s[i]);
        }
        assert(drop_ws(s@.take(i + 1)) == s@.take(i + 1).filter(|c: char| !is_ws(c)));
        i = i + 1;
    }
    assert(s@.take(s.len() as int) == s@);
    r
}


/// Whether two character slices are equal.
pub fn same_chars(a: &[char], b: &[char]) -> (r: bool)
    ensures
        r == (a@ == b@),
{
    if a.len() != b.len() {
        return false;
    }
    let r = has_prefix(a, b);
    assert(a@.take(b.len() as int) == a@);
    r
}

/// Whether `x` is among the character vectors.
pub fn contains_line(v: &Vec<Vec<char>>, x: &[char]) -> (b: bool)
    ensures
        b == views(v@).contains(x@),
{
    let mut i: usize = 0;
    while i < v.len()
        invariant
            i <= v.len(),
            forall|k: int| 0 <= k < i ==> views(v@)[k] != x@,
        decreases v.len() - i,
    {
        if same_chars(v[i].as_slice(), x) {
            assert(views(v@)[i as int] == x@);
            return true;
        }
        i = i + 1;
    }
    false
}

} // verus!
