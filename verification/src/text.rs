//! Character-level text operations with their mathematical meaning: the
//! whitespace of `char::is_whitespace`, `trim`, `lines`, `split`, `split_once`,
//! substring search and decimal numbers.
use vstd::prelude::*;

verus! {

// ---------------------------------------------------------------------------
// Building strings
// ---------------------------------------------------------------------------

/// `String::push`: appends one character.
#[verifier::external_body]
pub(crate) fn push_char(s: &mut String, c: char)
    ensures
        final(s)@ == old(s)@.push(c),
{
    s.push(c);
}

/// The characters of a string slice, in order.
pub fn chars_of(s: &str) -> (v: Vec<char>)
    ensures
        v@ == s@,
{
    let mut v: Vec<char> = Vec::new();
    for c in it: s.chars()
        invariant
            it.seq() == s@,
            v@ == s@.take(it.index()),
    {
        v.push(c);
    }
    v
}

/// The string made of the characters `v[lo..hi]`.
pub fn string_of(v: &Vec<char>, lo: usize, hi: usize) -> (r: String)
    requires
        lo <= hi <= v@.len(),
    ensures
        r@ == v@.subrange(lo as int, hi as int),
{
    let mut r = String::new();
    let mut i = lo;
    while i < hi
        invariant
            lo <= i <= hi <= v@.len(),
            r@ == v@.subrange(lo as int, i as int),
        decreases hi - i,
    {
        push_char(&mut r, v[i]);
        assert(v@.subrange(lo as int, i + 1) =~= v@.subrange(lo as int, i as int).push(v@[i as int]));
        i = i + 1;
    }
    r
}

/// Appends a string slice to a string.
pub fn push_str(r: &mut String, s: &str)
    ensures
        final(r)@ == old(r)@ + s@,
{
    r.append(s);
}

/// `a` followed by `b`.
pub fn cat2(a: &str, b: &str) -> (r: String)
    ensures
        r@ == a@ + b@,
{
    let mut r = owned(a);
    push_str(&mut r, b);
    r
}

/// `a`, `b` and `c` in a row.
pub fn cat3(a: &str, b: &str, c: &str) -> (r: String)
    ensures
        r@ == a@ + b@ + c@,
{
    let mut r = owned(a);
    push_str(&mut r, b);
    push_str(&mut r, c);
    r
}

/// A fresh string holding `s`.
pub fn owned(s: &str) -> (r: String)
    ensures
        r@ == s@,
{
    String::from_str(s)
}

// ---------------------------------------------------------------------------
// Whitespace and trimming
// ---------------------------------------------------------------------------

/// The Unicode `White_Space` property, which `char::is_whitespace` tests.
pub open spec fn is_ws(c: char) -> bool {
    ||| c == '\t' || c == '\n' || c == '\u{0B}' || c == '\u{0C}' || c == '\r' || c == ' '
    ||| c == '\u{85}' || c == '\u{A0}' || c == '\u{1680}'
    ||| ('\u{2000}' <= c && c <= '\u{200A}')
    ||| c == '\u{2028}' || c == '\u{2029}' || c == '\u{202F}' || c == '\u{205F}' || c == '\u{3000}'
}

/// Whether `c` is whitespace in the sense of `char::is_whitespace`.
pub fn is_whitespace(c: char) -> (b: bool)
    ensures
        b == is_ws(c),
{
    c == '\t' || c == '\n' || c == '\u{0B}' || c == '\u{0C}' || c == '\r' || c == ' '
        || c == '\u{85}' || c == '\u{A0}' || c == '\u{1680}' || ('\u{2000}' <= c && c
        <= '\u{200A}') || c == '\u{2028}' || c == '\u{2029}' || c == '\u{202F}' || c
        == '\u{205F}' || c == '\u{3000}'
}

/// `s` without its leading whitespace.
pub open spec fn trim_start(s: Seq<char>) -> Seq<char>
    decreases s.len(),
{
    if s.len() > 0 && is_ws(s[0]) {
        trim_start(s.drop_first())
    } else {
        s
    }
}

/// `s` without its trailing whitespace.
pub open spec fn trim_end(s: Seq<char>) -> Seq<char>
    decreases s.len(),
{
    if s.len() > 0 && is_ws(s.last()) {
        trim_end(s.drop_last())
    } else {
        s
    }
}

/// `s` without leading and trailing whitespace, as `str::trim` gives it.
pub open spec fn trim(s: Seq<char>) -> Seq<char> {
    trim_end(trim_start(s))
}

/// Skipping one leading whitespace character does not change `trim_start`.
proof fn lemma_trim_start_step(s: Seq<char>, i: int)
    requires
        0 <= i < s.len(),
        is_ws(s[i]),
    ensures
        trim_start(s.subrange(i, s.len() as int)) == trim_start(s.subrange(i + 1, s.len() as int)),
{
    assert(s.subrange(i, s.len() as int).drop_first() =~= s.subrange(i + 1, s.len() as int));
}

/// Dropping one trailing whitespace character does not change `trim_end`.
proof fn lemma_trim_end_step(s: Seq<char>, lo: int, j: int)
    requires
        0 <= lo < j <= s.len(),
        is_ws(s[j - 1]),
    ensures
        trim_end(s.subrange(lo, j)) == trim_end(s.subrange(lo, j - 1)),
{
    assert(s.subrange(lo, j).drop_last() =~= s.subrange(lo, j - 1));
}

/// The bounds of `trim(v[lo..hi])` inside `v`.
pub fn trim_bounds(v: &Vec<char>, lo: usize, hi: usize) -> (r: (usize, usize))
    requires
        lo <= hi <= v@.len(),
    ensures
        lo <= r.0 <= r.1 <= hi,
        v@.subrange(r.0 as int, r.1 as int) == trim(v@.subrange(lo as int, hi as int)),
{
    let mut a = lo;
    while a < hi && is_whitespace(v[a])
        invariant
            lo <= a <= hi <= v@.len(),
            trim_start(v@.subrange(lo as int, hi as int)) == trim_start(
                v@.subrange(a as int, hi as int),
            ),
        decreases hi - a,
    {
        proof {
            lemma_trim_start_step(v@.subrange(0, hi as int), a as int);
            assert(v@.subrange(0, hi as int).subrange(a as int, hi as int) =~= v@.subrange(
                a as int,
                hi as int,
            ));
            assert(v@.subrange(0, hi as int).subrange(a + 1, hi as int) =~= v@.subrange(
                a + 1,
                hi as int,
            ));
        }
        a = a + 1;
    }
    assert(trim_start(v@.subrange(a as int, hi as int)) == v@.subrange(a as int, hi as int));
    let mut b = hi;
    while b > a && is_whitespace(v[b - 1])
        invariant
            lo <= a <= b <= hi <= v@.len(),
            trim_end(v@.subrange(a as int, hi as int)) == trim_end(v@.subrange(a as int, b as int)),
        decreases b - a,
    {
        proof {
            lemma_trim_end_step(v@, a as int, b as int);
        }
        b = b - 1;
    }
    (a, b)
}

/// `str::trim`.
pub fn trim_str(s: &str) -> (r: String)
    ensures
        r@ == trim(s@),
{
    let v = chars_of(s);
    let (a, b) = trim_bounds(&v, 0, v.len());
    assert(v@.subrange(0, v@.len() as int) =~= v@);
    string_of(&v, a, b)
}

// ---------------------------------------------------------------------------
// Searching for a character
// ---------------------------------------------------------------------------

/// The index of the first `c` in `s`, or `s.len()` when there is none.
pub open spec fn index_of(s: Seq<char>, c: char) -> int
    decreases s.len(),
{
    if s.len() == 0 {
        0
    } else if s[0] == c {
        0
    } else {
        1 + index_of(s.drop_first(), c)
    }
}

/// `index_of` is the first occurrence.
pub proof fn lemma_index_of(s: Seq<char>, c: char)
    ensures
        0 <= index_of(s, c) <= s.len(),
        index_of(s, c) < s.len() ==> s[index_of(s, c)] == c,
        forall|j: int| 0 <= j < index_of(s, c) ==> s[j] != c,
    decreases s.len(),
{
    if s.len() > 0 && s[0] != c {
        lemma_index_of(s.drop_first(), c);
        assert forall|j: int| 0 <= j < index_of(s, c) implies s[j] != c by {
            if j > 0 {
                assert(s[j] == s.drop_first()[j - 1]);
            }
        }
    }
}

/// A position before which no `c` occurs, and at which `c` occurs or the
/// sequence ends, is `index_of`.
pub proof fn lemma_index_of_at(s: Seq<char>, c: char, k: int)
    requires
        0 <= k <= s.len(),
        k < s.len() ==> s[k] == c,
        forall|j: int| 0 <= j < k ==> s[j] != c,
    ensures
        index_of(s, c) == k,
    decreases s.len(),
{
    if s.len() > 0 && k > 0 {
        assert(s[0] != c);
        assert forall|j: int| 0 <= j < k - 1 implies s.drop_first()[j] != c by {
            assert(s.drop_first()[j] == s[j + 1]);
        }
        lemma_index_of_at(s.drop_first(), c, k - 1);
    }
}

/// The first `c` in `v[lo..hi]`, as an index into `v`; `hi` when there is none.
pub fn find_char(v: &Vec<char>, lo: usize, hi: usize, c: char) -> (r: usize)
    requires
        lo <= hi <= v@.len(),
    ensures
        lo <= r <= hi,
        r - lo == index_of(v@.subrange(lo as int, hi as int), c),
{
    let mut i = lo;
    while i < hi && v[i] != c
        invariant
            lo <= i <= hi <= v@.len(),
            forall|j: int| lo <= j < i ==> v@[j] != c,
        decreases hi - i,
    {
        i = i + 1;
    }
    proof {
        let s = v@.subrange(lo as int, hi as int);
        assert forall|j: int| 0 <= j < i - lo implies s[j] != c by {
            assert(s[j] == v@[lo + j]);
        }
        lemma_index_of_at(s, c, i - lo);
    }
    i
}

/// `str::split_once` with a character pattern: the parts before and after
/// the first `c`.
pub open spec fn split_once(s: Seq<char>, c: char) -> Option<(Seq<char>, Seq<char>)> {
    let i = index_of(s, c);
    if i < s.len() {
        Some((s.take(i), s.skip(i + 1)))
    } else {
        None
    }
}


// ---------------------------------------------------------------------------
// Lines
// ---------------------------------------------------------------------------

/// The pieces of `s` between line feeds; a final piece only when it is not
/// empty. Each piece keeps its carriage returns.
pub open spec fn raw_lines(s: Seq<char>) -> Seq<Seq<char>>
    decreases s.len(),
{
    if s.len() == 0 {
        seq![]
    } else {
        let r = raw_lines(s.drop_first());
        if s[0] == '\n' {
            seq![seq![]] + r
        } else if r.len() == 0 {
            seq![seq![s[0]]]
        } else {
            r.update(0, seq![s[0]] + r[0])
        }
    }
}

/// A line without the carriage return that preceded its line feed.
pub open spec fn strip_cr(l: Seq<char>) -> Seq<char> {
    if l.len() > 0 && l.last() == '\r' {
        l.drop_last()
    } else {
        l
    }
}

/// `str::lines`: the lines of `s`, split at `\n` or `\r\n`; a final line
/// ending is optional, and a `\r` not followed by `\n` stays in the line.
pub open spec fn lines(s: Seq<char>) -> Seq<Seq<char>> {
    let r = raw_lines(s);
    if s.len() > 0 && s.last() != '\n' {
        r.drop_last().map_values(|l: Seq<char>| strip_cr(l)).push(r.last())
    } else {
        r.map_values(|l: Seq<char>| strip_cr(l))
    }
}

/// `cur` joined to the front of the first piece of `r`.
pub open spec fn prepend_line(cur: Seq<char>, r: Seq<Seq<char>>) -> Seq<Seq<char>> {
    if r.len() == 0 {
        if cur.len() == 0 {
            seq![]
        } else {
            seq![cur]
        }
    } else {
        r.update(0, cur + r[0])
    }
}

/// The deep view of a vector of strings after a push.
pub proof fn lemma_push_deep_view(old_v: Seq<String>, x: String)
    ensures
        Seq::new(old_v.push(x).len(), |i: int| old_v.push(x)[i]@) =~= Seq::new(
            old_v.len(),
            |i: int| old_v[i]@,
        ).push(x@),
{
}

/// `str::lines`.
pub fn lines_of(s: &str) -> (r: Vec<String>)
    ensures
        r.deep_view() == lines(s@),
{
    let v = chars_of(s);
    let n = v.len();
    let mut out: Vec<String> = Vec::new();
    let ghost mut pieces: Seq<Seq<char>> = seq![];
    let mut start: usize = 0;
    let mut i: usize = 0;
    proof {
        assert(v@.skip(0) =~= v@);
        assert(v@.subrange(0, 0) =~= Seq::<char>::empty());
        let r0 = raw_lines(v@);
        if r0.len() > 0 {
            assert(r0.update(0, Seq::<char>::empty() + r0[0]) =~= r0);
        }
        assert(pieces + prepend_line(seq![], r0) =~= r0);
    }
    while i < n
        invariant
            n == v@.len(),
            v@ == s@,
            start <= i <= n,
            start > 0 ==> v@[start - 1] == '\n',
            forall|j: int| start <= j < i ==> v@[j] != '\n',
            raw_lines(s@) == pieces + prepend_line(
                v@.subrange(start as int, i as int),
                raw_lines(v@.skip(i as int)),
            ),
            out.deep_view() == pieces.map_values(|l: Seq<char>| strip_cr(l)),
        decreases n - i,
    {
        let ghost cur = v@.subrange(start as int, i as int);
        let ghost rest = raw_lines(v@.skip(i + 1));
        assert(v@.skip(i as int).drop_first() =~= v@.skip(i + 1));
        if v[i] == '\n' {
            let mut e = i;
            if e > start && v[e - 1] == '\r' {
                e = e - 1;
            }
            let line = string_of(&v, start, e);
            proof {
                assert(line@ == strip_cr(cur)) by {
                    if i > start && v@[i - 1] == '\r' {
                        assert(cur.drop_last() =~= v@.subrange(start as int, i - 1));
                    }
                }
                lemma_push_deep_view(out@, line);
                assert(prepend_line(cur, raw_lines(v@.skip(i as int))) =~= seq![cur] + rest);
                if rest.len() > 0 {
                    assert(prepend_line(seq![], rest) =~= rest);
                }
                assert(pieces.push(cur).map_values(|l: Seq<char>| strip_cr(l)) =~= pieces.map_values(
                    |l: Seq<char>| strip_cr(l),
                ).push(strip_cr(cur)));
                pieces = pieces.push(cur);
            }
            out.push(line);
            start = i + 1;
            proof {
                assert(v@.subrange(start as int, start as int) =~= Seq::<char>::empty());
                assert(raw_lines(s@) =~= pieces + prepend_line(seq![], rest));
            }
        } else {
            proof {
                let nc = v@.subrange(start as int, i + 1);
                assert(nc =~= cur.push(v@[i as int]));
                assert(v@.skip(i as int)[0] == v@[i as int]);
                if rest.len() == 0 {
                    assert(raw_lines(v@.skip(i as int)) == seq![seq![v@[i as int]]]);
                    assert(cur + seq![v@[i as int]] =~= nc);
                    assert(nc.len() > 0);
                    assert(seq![seq![v@[i as int]]].update(0, cur + seq![v@[i as int]]) =~= seq![nc]);
                    assert(prepend_line(cur, raw_lines(v@.skip(i as int))) =~= prepend_line(nc, rest));
                } else {
                    assert(raw_lines(v@.skip(i as int)) == rest.update(0, seq![v@[i as int]] + rest[0]));
                    assert(cur + (seq![v@[i as int]] + rest[0]) =~= nc + rest[0]);
                    assert(prepend_line(cur, raw_lines(v@.skip(i as int))) =~= prepend_line(nc, rest));
                }
            }
        }
        i = i + 1;
    }
    assert(v@.skip(n as int) =~= Seq::<char>::empty());
    if start < n {
        let last = string_of(&v, start, n);
        proof {
            lemma_push_deep_view(out@, last);
            let r = raw_lines(s@);
            assert(r =~= pieces.push(last@));
            assert(s@.last() != '\n');
            assert(r.drop_last() =~= pieces);
        }
        out.push(last);
    } else {
        proof {
            assert(raw_lines(s@) =~= pieces);
            if n > 0 {
                assert(s@.last() == '\n');
            }
        }
    }
    out
}

// ---------------------------------------------------------------------------
// Splitting at a separator, joining, searching
// ---------------------------------------------------------------------------

/// `str::split` with a character separator: the pieces between separators,
/// empty ones included; an empty string gives one empty piece.
pub open spec fn split(s: Seq<char>, c: char) -> Seq<Seq<char>>
    decreases s.len(),
{
    if s.len() == 0 {
        seq![seq![]]
    } else {
        let r = split(s.drop_first(), c);
        if s[0] == c {
            seq![seq![]] + r
        } else {
            r.update(0, seq![s[0]] + r[0])
        }
    }
}

/// `split` gives at least one piece.
pub proof fn lemma_split_nonempty(s: Seq<char>, c: char)
    ensures
        split(s, c).len() >= 1,
    decreases s.len(),
{
    if s.len() > 0 {
        lemma_split_nonempty(s.drop_first(), c);
    }
}

/// `str::split` with a character separator.
pub fn split_char(s: &str, c: char) -> (r: Vec<String>)
    ensures
        r.deep_view() == split(s@, c),
{
    let v = chars_of(s);
    let n = v.len();
    let mut out: Vec<String> = Vec::new();
    let ghost mut pieces: Seq<Seq<char>> = seq![];
    let mut start: usize = 0;
    let mut i: usize = 0;
    proof {
        assert(v@.skip(0) =~= v@);
        assert(v@.subrange(0, 0) =~= Seq::<char>::empty());
        lemma_split_nonempty(v@, c);
        let r0 = split(v@, c);
        assert(r0.update(0, Seq::<char>::empty() + r0[0]) =~= r0);
        assert(pieces + r0.update(0, Seq::<char>::empty() + r0[0]) =~= r0);
    }
    while i < n
        invariant
            n == v@.len(),
            v@ == s@,
            start <= i <= n,
            split(s@, c) == pieces + {
                let r = split(v@.skip(i as int), c);
                r.update(0, v@.subrange(start as int, i as int) + r[0])
            },
            out.deep_view() == pieces,
        decreases n - i,
    {
        let ghost cur = v@.subrange(start as int, i as int);
        let ghost rest = split(v@.skip(i + 1), c);
        proof {
            lemma_split_nonempty(v@.skip(i + 1), c);
            assert(v@.skip(i as int).drop_first() =~= v@.skip(i + 1));
        }
        if v[i] == c {
            let piece = string_of(&v, start, i);
            proof {
                lemma_push_deep_view(out@, piece);
                assert(rest.update(0, Seq::<char>::empty() + rest[0]) =~= rest);
                assert((seq![seq![]] + rest).update(0, cur + (seq![seq![]] + rest)[0]) =~= seq![cur]
                    + rest);
                pieces = pieces.push(cur);
            }
            out.push(piece);
            start = i + 1;
            proof {
                assert(v@.subrange(start as int, start as int) =~= Seq::<char>::empty());
                assert(split(s@, c) =~= pieces + rest.update(
                    0,
                    v@.subrange(start as int, start as int) + rest[0],
                ));
            }
        } else {
            proof {
                let nc = v@.subrange(start as int, i + 1);
                assert(nc =~= cur.push(v@[i as int]));
                assert(cur + (seq![v@[i as int]] + rest[0]) =~= nc + rest[0]);
                assert(rest.update(0, seq![v@[i as int]] + rest[0]).update(
                    0,
                    cur + rest.update(0, seq![v@[i as int]] + rest[0])[0],
                ) =~= rest.update(0, nc + rest[0]));
            }
        }
        i = i + 1;
    }
    let last = string_of(&v, start, n);
    proof {
        assert(v@.skip(n as int) =~= Seq::<char>::empty());
        lemma_push_deep_view(out@, last);
        assert(split(s@, c) =~= pieces.push(last@));
    }
    out.push(last);
    out
}

/// The pieces joined with `sep` between consecutive pieces.
pub open spec fn join(pieces: Seq<Seq<char>>, sep: Seq<char>) -> Seq<char>
    decreases pieces.len(),
{
    if pieces.len() == 0 {
        seq![]
    } else if pieces.len() == 1 {
        pieces[0]
    } else {
        join(pieces.drop_last(), sep) + sep + pieces.last()
    }
}

/// `[&str]::join` / `[String]::join`.
pub fn join_strings(pieces: &Vec<String>, sep: &str) -> (r: String)
    ensures
        r@ == join(pieces.deep_view(), sep@),
{
    let mut r = String::new();
    let mut i: usize = 0;
    while i < pieces.len()
        invariant
            i <= pieces@.len(),
            r@ == join(pieces.deep_view().take(i as int), sep@),
        decreases pieces@.len() - i,
    {
        assert(pieces.deep_view().take(i + 1).drop_last() =~= pieces.deep_view().take(i as int));
        if i > 0 {
            push_str(&mut r, sep);
        } else {
            assert(r@ =~= Seq::<char>::empty());
        }
        push_str(&mut r, pieces[i].as_str());
        i = i + 1;
    }
    assert(pieces.deep_view().take(pieces@.len() as int) =~= pieces.deep_view());
    r
}

/// Whether `pat` occurs in `s` starting at index `i`.
pub open spec fn occurs_at(s: Seq<char>, pat: Seq<char>, i: int) -> bool {
    0 <= i && i + pat.len() <= s.len() && s.subrange(i, i + pat.len()) == pat
}

/// `str::contains`: `pat` occurs somewhere in `s`.
pub open spec fn contains(s: Seq<char>, pat: Seq<char>) -> bool {
    exists|i: int| occurs_at(s, pat, i)
}

/// `str::starts_with`.
pub open spec fn starts_with(s: Seq<char>, pat: Seq<char>) -> bool {
    occurs_at(s, pat, 0)
}

/// Whether `p` occurs in `v` at index `i`.
pub fn matches_at(v: &Vec<char>, p: &Vec<char>, i: usize) -> (b: bool)
    requires
        i <= v@.len(),
    ensures
        b == occurs_at(v@, p@, i as int),
{
    let vl = v.len();
    if p.len() > vl - i {
        return false;
    }
    let mut k: usize = 0;
    while k < p.len()
        invariant
            vl == v@.len(),
            i + p@.len() <= v@.len(),
            k <= p@.len(),
            forall|j: int| 0 <= j < k ==> v@[i + j] == p@[j],
        decreases p@.len() - k,
    {
        assert(i + k < v@.len());
        if v[i + k] != p[k] {
            assert(v@.subrange(i as int, i + p@.len())[k as int] != p@[k as int]);
            return false;
        }
        k = k + 1;
    }
    assert(v@.subrange(i as int, i + p@.len()) =~= p@);
    true
}

/// `str::contains` with a string pattern.
pub fn contains_str(s: &str, pat: &str) -> (b: bool)
    ensures
        b == contains(s@, pat@),
{
    let v = chars_of(s);
    let p = chars_of(pat);
    let mut i: usize = 0;
    while i < v.len()
        invariant
            v@ == s@,
            p@ == pat@,
            i <= v@.len(),
            forall|j: int| 0 <= j < i ==> !occurs_at(v@, p@, j),
        decreases v@.len() - i,
    {
        if matches_at(&v, &p, i) {
            return true;
        }
        i = i + 1;
    }
    if matches_at(&v, &p, i) {
        return true;
    }
    assert forall|j: int| !occurs_at(v@, p@, j) by {
        if 0 <= j <= i {
        }
    }
    false
}

/// `str::starts_with` with a string pattern.
pub fn starts_with_str(s: &str, pat: &str) -> (b: bool)
    ensures
        b == starts_with(s@, pat@),
{
    let v = chars_of(s);
    let p = chars_of(pat);
    matches_at(&v, &p, 0)
}

/// The index of the first whitespace character of `s`, or `s.len()`.
pub open spec fn ws_index(s: Seq<char>) -> int
    decreases s.len(),
{
    if s.len() == 0 {
        0
    } else if is_ws(s[0]) {
        0
    } else {
        1 + ws_index(s.drop_first())
    }
}

proof fn lemma_ws_index_at(s: Seq<char>, k: int)
    requires
        0 <= k <= s.len(),
        k < s.len() ==> is_ws(s[k]),
        forall|j: int| 0 <= j < k ==> !is_ws(s[j]),
    ensures
        ws_index(s) == k,
    decreases s.len(),
{
    if s.len() > 0 && k > 0 {
        assert forall|j: int| 0 <= j < k - 1 implies !is_ws(s.drop_first()[j]) by {
            assert(s.drop_first()[j] == s[j + 1]);
        }
        lemma_ws_index_at(s.drop_first(), k - 1);
    }
}

/// `str::split_whitespace().next()`: the first run of non-whitespace
/// characters, if there is one.
pub open spec fn first_word(s: Seq<char>) -> Option<Seq<char>> {
    let t = trim_start(s);
    if t.len() == 0 {
        None
    } else {
        Some(t.take(ws_index(t)))
    }
}

/// The first whitespace-separated word of `s`.
pub fn first_word_of(s: &str) -> (r: Option<String>)
    ensures
        r matches Some(w) ==> first_word(s@) == Some(w@),
        r is None ==> first_word(s@) is None,
{
    let v = chars_of(s);
    let n = v.len();
    let mut a: usize = 0;
    assert(v@.subrange(0, n as int) =~= v@);
    while a < n && is_whitespace(v[a])
        invariant
            a <= n == v@.len(),
            v@ == s@,
            trim_start(s@) == trim_start(v@.subrange(a as int, n as int)),
        decreases n - a,
    {
        proof {
            lemma_trim_start_step(v@, a as int);
        }
        a = a + 1;
    }
    assert(v@.subrange(0, n as int) =~= v@);
    let ghost t = v@.subrange(a as int, n as int);
    assert(trim_start(t) == t);
    if a == n {
        return None;
    }
    let mut b = a;
    while b < n && !is_whitespace(v[b])
        invariant
            a <= b <= n == v@.len(),
            forall|j: int| a <= j < b ==> !is_ws(v@[j]),
        decreases n - b,
    {
        b = b + 1;
    }
    proof {
        assert forall|j: int| 0 <= j < b - a implies !is_ws(t[j]) by {
            assert(t[j] == v@[a + j]);
        }
        lemma_ws_index_at(t, b - a);
        assert(t.take(b - a) =~= v@.subrange(a as int, b as int));
    }
    Some(string_of(&v, a, b))
}


// ---------------------------------------------------------------------------
// Case and character classes (Unicode tables)
// ---------------------------------------------------------------------------

/// What `str::to_lowercase` returns for a string with these characters.
pub uninterp spec fn lowercase(s: Seq<char>) -> Seq<char>;

/// Whether `char::is_alphanumeric` holds of a character.
pub uninterp spec fn alphanumeric(c: char) -> bool;

/// `str::to_lowercase`. Its result is named `lowercase`: the Unicode case
/// mapping of the whole string, a function of the characters alone. Nothing
/// more is claimed of it.
#[verifier::external_body]
pub(crate) fn to_lowercase(s: &str) -> (r: String)
    ensures
        r@ == lowercase(s@),
{
    s.to_lowercase()
}

/// `char::is_alphanumeric`: whether the character is alphabetic or numeric by
/// Unicode's tables. Its result is named `alphanumeric`; nothing more is
/// claimed of it.
#[verifier::external_body]
pub(crate) fn is_alphanumeric(c: char) -> (b: bool)
    ensures
        b == alphanumeric(c),
{
    c.is_alphanumeric()
}

// ---------------------------------------------------------------------------
// Decimal numbers
// ---------------------------------------------------------------------------

/// The character of decimal digit `d`.
pub open spec fn digit_char(d: nat) -> char
    recommends
        d < 10,
{
    ((48 + d) as u32) as char
}

/// Whether `c` is an ASCII decimal digit.
pub open spec fn is_digit(c: char) -> bool {
    '0' <= c && c <= '9'
}

/// The value of digit character `c`.
pub open spec fn digit_value(c: char) -> nat {
    ((c as u32) - 48) as nat
}

/// The decimal representation of `n`, without sign or leading zeros, as
/// `Display` writes an unsigned integer.
pub open spec fn decimal(n: nat) -> Seq<char>
    decreases n,
{
    if n < 10 {
        seq![digit_char(n)]
    } else {
        decimal(n / 10).push(digit_char(n % 10))
    }
}

/// The value of a sequence of decimal digits, most significant first.
pub open spec fn digits_value(d: Seq<char>) -> nat
    decreases d.len(),
{
    if d.len() == 0 {
        0
    } else {
        digits_value(d.drop_last()) * 10 + digit_value(d.last())
    }
}

/// Whether every character of `d` is a decimal digit.
pub open spec fn all_digits(d: Seq<char>) -> bool {
    forall|i: int| 0 <= i < d.len() ==> is_digit(#[trigger] d[i])
}

/// The digits that `str::parse` reads for an unsigned integer: `s` without
/// one leading `+`.
pub open spec fn unsigned_digits(s: Seq<char>) -> Seq<char> {
    if s.len() > 0 && s[0] == '+' {
        s.drop_first()
    } else {
        s
    }
}

/// `str::parse` of an unsigned integer no larger than `max`: an optional `+`
/// and one or more ASCII digits whose value fits; otherwise an error.
pub open spec fn parse_unsigned(s: Seq<char>, max: nat) -> Option<nat> {
    let d = unsigned_digits(s);
    if d.len() > 0 && all_digits(d) && digits_value(d) <= max {
        Some(digits_value(d))
    } else {
        None
    }
}

/// The character of decimal digit `d`.
pub fn digit(d: u64) -> (c: char)
    requires
        d < 10,
    ensures
        c == digit_char(d as nat),
{
    if d == 0 {
        '0'
    } else if d == 1 {
        '1'
    } else if d == 2 {
        '2'
    } else if d == 3 {
        '3'
    } else if d == 4 {
        '4'
    } else if d == 5 {
        '5'
    } else if d == 6 {
        '6'
    } else if d == 7 {
        '7'
    } else if d == 8 {
        '8'
    } else {
        '9'
    }
}

/// Appends the decimal representation of `n`.
pub fn push_decimal(r: &mut String, n: u64)
    ensures
        final(r)@ == old(r)@ + decimal(n as nat),
    decreases n,
{
    if n >= 10 {
        push_decimal(r, n / 10);
    }
    let c = digit(n % 10);
    push_char(r, c);
    proof {
        if n >= 10 {
            assert(old(r)@ + decimal(n as nat) =~= old(r)@ + decimal((n / 10) as nat) + seq![c]);
        } else {
            assert(old(r)@ + decimal(n as nat) =~= old(r)@ + seq![c]);
        }
    }
}

/// `u64::to_string`.
pub fn decimal_string(n: u64) -> (r: String)
    ensures
        r@ == decimal(n as nat),
{
    let mut r = String::new();
    push_decimal(&mut r, n);
    assert(r@ =~= decimal(n as nat));
    r
}

/// The value of a digit prefix never exceeds the value of the whole.
proof fn lemma_digits_value_prefix(d: Seq<char>, k: int)
    requires
        0 <= k <= d.len(),
    ensures
        digits_value(d.take(k)) <= digits_value(d),
    decreases d.len() - k,
{
    if k < d.len() {
        lemma_digits_value_prefix(d, k + 1);
        assert(d.take(k + 1).drop_last() =~= d.take(k));
    } else {
        assert(d.take(k) =~= d);
    }
}

/// `str::parse::<u64>`, or of a narrower unsigned type whose maximum is `max`.
pub fn parse_unsigned_str(s: &str, max: u64) -> (r: Option<u64>)
    ensures
        r matches Some(n) ==> parse_unsigned(s@, max as nat) == Some(n as nat),
        r is None ==> parse_unsigned(s@, max as nat) is None,
{
    let v = chars_of(s);
    let n = v.len();
    let start: usize = if n > 0 && v[0] == '+' { 1 } else { 0 };
    let ghost d = unsigned_digits(s@);
    assert(d =~= v@.subrange(start as int, n as int));
    if start == n {
        return None;
    }
    let mut acc: u64 = 0;
    let mut i = start;
    while i < n
        invariant
            start <= i <= n == v@.len(),
            d == v@.subrange(start as int, n as int),
            d == unsigned_digits(s@),
            forall|j: int| start <= j < i ==> is_digit(v@[j]),
            acc as nat == digits_value(d.take(i - start)),
            acc <= max,
        decreases n - i,
    {
        let c = v[i];
        if !('0' <= c && c <= '9') {
            assert(d[i - start] == c);
            assert(!is_digit(d[i - start]));
            assert(!all_digits(d));
            return None;
        }
        let dv = (c as u32 - 48) as u64;
        let next: u128 = (acc as u128) * 10 + (dv as u128);
        proof {
            assert(d.take(i + 1 - start).drop_last() =~= d.take(i - start));
            assert(d.take(i + 1 - start).last() == c);
        }
        assert(digits_value(d.take(i + 1 - start)) == acc as nat * 10 + dv as nat);
        if next > max as u128 {
            proof {
                lemma_digits_value_prefix(d, i + 1 - start);
            }
            return None;
        }
        acc = next as u64;
        i = i + 1;
    }
    proof {
        assert(d.take(n - start) =~= d);
        assert forall|j: int| 0 <= j < d.len() implies is_digit(#[trigger] d[j]) by {
            assert(d[j] == v@[start + j]);
        }
    }
    Some(acc)
}


// ---------------------------------------------------------------------------
// Facts about lines and trimming
// ---------------------------------------------------------------------------

/// The lines `ls`, each followed by a line feed.
pub open spec fn terminated(ls: Seq<Seq<char>>) -> Seq<char>
    decreases ls.len(),
{
    if ls.len() == 0 {
        seq![]
    } else {
        terminated(ls.drop_last()) + ls.last().push('\n')
    }
}

/// `c` does not occur in `s`.
pub open spec fn free_of(s: Seq<char>, c: char) -> bool {
    forall|i: int| 0 <= i < s.len() ==> s[i] != c
}

/// A line that `lines` gives back unchanged: no line feed in it and no
/// carriage return at its end.
pub open spec fn plain_line(l: Seq<char>) -> bool {
    free_of(l, '\n') && !(l.len() > 0 && l.last() == '\r')
}

/// Splitting after a line feed splits the pieces.
pub proof fn lemma_raw_lines_append(a: Seq<char>, b: Seq<char>)
    requires
        a.len() == 0 || a.last() == '\n',
    ensures
        raw_lines(a + b) == raw_lines(a) + raw_lines(b),
    decreases a.len(),
{
    if a.len() == 0 {
        assert(a + b =~= b);
        assert(raw_lines(a) + raw_lines(b) =~= raw_lines(b));
    } else {
        let a1 = a.drop_first();
        assert((a + b).drop_first() =~= a1 + b);
        assert((a + b)[0] == a[0]);
        lemma_raw_lines_append(a1, b);
        if a[0] == '\n' {
            assert(raw_lines(a + b) =~= raw_lines(a) + raw_lines(b));
        } else {
            assert(a1.len() > 0);
            assert(a1[0] == '\n' ==> raw_lines(a1).len() > 0);
            assert(raw_lines(a1).len() > 0);
            assert(raw_lines(a + b) =~= raw_lines(a) + raw_lines(b));
        }
    }
}

/// One line followed by a line feed is one piece.
pub proof fn lemma_raw_lines_single(l: Seq<char>)
    requires
        free_of(l, '\n'),
    ensures
        raw_lines(l.push('\n')) == seq![l],
    decreases l.len(),
{
    if l.len() == 0 {
        assert(l.push('\n').drop_first() =~= Seq::<char>::empty());
        assert(l.push('\n')[0] == '\n');
        assert(l =~= Seq::<char>::empty());
        assert(raw_lines(Seq::<char>::empty()) == Seq::<Seq<char>>::empty());
        assert(raw_lines(l.push('\n')) == seq![Seq::<char>::empty()] + Seq::<Seq<char>>::empty());
        assert(raw_lines(l.push('\n')) =~= seq![l]);
    } else {
        let l1 = l.drop_first();
        assert(l.push('\n').drop_first() =~= l1.push('\n'));
        lemma_raw_lines_single(l1);
        assert(l.push('\n')[0] == l[0]);
        assert(l[0] != '\n');
        assert(seq![l[0]] + l1 =~= l);
        assert(raw_lines(l.push('\n')) =~= seq![l]);
    }
}

/// `lines` gives back lines that were each written with a line feed.
pub proof fn lemma_lines_terminated(ls: Seq<Seq<char>>)
    requires
        forall|i: int| 0 <= i < ls.len() ==> plain_line(#[trigger] ls[i]),
    ensures
        raw_lines(terminated(ls)) == ls,
        lines(terminated(ls)) == ls,
    decreases ls.len(),
{
    if ls.len() > 0 {
        let p = ls.drop_last();
        assert forall|i: int| 0 <= i < p.len() implies plain_line(#[trigger] p[i]) by {
            assert(p[i] == ls[i]);
        }
        lemma_lines_terminated(p);
        assert(plain_line(ls[ls.len() - 1]));
        lemma_raw_lines_append(terminated(p), ls.last().push('\n'));
        lemma_raw_lines_single(ls.last());
        assert(raw_lines(terminated(ls)) =~= ls);
    }
    let s = terminated(ls);
    if ls.len() > 0 {
        assert(s.last() == '\n');
    }
    assert forall|i: int| 0 <= i < ls.len() implies strip_cr(#[trigger] ls[i]) == ls[i] by {
        assert(plain_line(ls[i]));
    }
    assert(lines(s) =~= ls);
}

/// Every piece is free of line feeds.
pub proof fn lemma_raw_lines_free(s: Seq<char>)
    ensures
        forall|i: int| 0 <= i < raw_lines(s).len() ==> free_of(#[trigger] raw_lines(s)[i], '\n'),
    decreases s.len(),
{
    if s.len() > 0 {
        let r = raw_lines(s.drop_first());
        lemma_raw_lines_free(s.drop_first());
        assert forall|i: int| 0 <= i < raw_lines(s).len() implies free_of(
            #[trigger] raw_lines(s)[i],
            '\n',
        ) by {
            if s[0] == '\n' {
                if i > 0 {
                    assert(raw_lines(s)[i] == r[i - 1]);
                }
            } else if r.len() > 0 && i == 0 {
                let x = raw_lines(s)[0];
                assert(x == seq![s[0]] + r[0]);
                assert(free_of(r[0], '\n'));
                assert forall|j: int| 0 <= j < x.len() implies x[j] != '\n' by {
                    if j > 0 {
                        assert(x[j] == r[0][j - 1]);
                    }
                }
            }
        }
    }
}

/// Every line is free of line feeds.
pub proof fn lemma_lines_free(s: Seq<char>)
    ensures
        forall|i: int| 0 <= i < lines(s).len() ==> free_of(#[trigger] lines(s)[i], '\n'),
{
    lemma_raw_lines_free(s);
    let r = raw_lines(s);
    assert forall|i: int| 0 <= i < lines(s).len() implies free_of(#[trigger] lines(s)[i], '\n') by {
        assert(free_of(r[i], '\n'));
    }
}

/// `trim_end(s)` is a prefix of `s` that is empty or ends in a
/// non-whitespace character.
pub proof fn lemma_trim_end(s: Seq<char>)
    ensures
        trim_end(s).len() <= s.len(),
        trim_end(s) == s.take(trim_end(s).len() as int),
        trim_end(s).len() > 0 ==> !is_ws(trim_end(s).last()),
    decreases s.len(),
{
    if s.len() > 0 && is_ws(s.last()) {
        lemma_trim_end(s.drop_last());
        assert(s.drop_last().take(trim_end(s).len() as int) =~= s.take(trim_end(s).len() as int));
    } else {
        assert(s.take(s.len() as int) =~= s);
    }
}

/// `trim_start(s)` is a suffix of `s` that is empty or starts with a
/// non-whitespace character.
pub proof fn lemma_trim_start(s: Seq<char>)
    ensures
        trim_start(s).len() <= s.len(),
        trim_start(s) == s.skip(s.len() - trim_start(s).len()),
        trim_start(s).len() > 0 ==> !is_ws(trim_start(s)[0]),
    decreases s.len(),
{
    if s.len() > 0 && is_ws(s[0]) {
        lemma_trim_start(s.drop_first());
        assert(s.drop_first().skip(s.len() - 1 - trim_start(s).len()) =~= s.skip(
            s.len() - trim_start(s).len(),
        ));
    } else {
        assert(s.skip(0) =~= s);
    }
}

/// Trimming a trimmed sequence changes nothing.
pub proof fn lemma_trim_idempotent(s: Seq<char>)
    ensures
        trim(trim(s)) == trim(s),
        trim(s).len() > 0 ==> !is_ws(trim(s)[0]) && !is_ws(trim(s).last()),
{
    let y = trim_start(s);
    lemma_trim_start(s);
    lemma_trim_end(y);
    let t = trim_end(y);
    if t.len() > 0 {
        assert(t[0] == y[0]);
    }
    assert(trim_start(t) == t);
    assert(trim_end(t) == t);
}

/// A trimmed sequence does not end with a carriage return.
pub proof fn lemma_trim_plain(s: Seq<char>)
    requires
        free_of(s, '\n'),
    ensures
        plain_line(trim(s)),
{
    lemma_trim_idempotent(s);
    lemma_trim_start(s);
    lemma_trim_end(trim_start(s));
    let t = trim(s);
    let y = trim_start(s);
    assert forall|i: int| 0 <= i < t.len() implies t[i] != '\n' by {
        assert(t[i] == y[i]);
        assert(y[i] == s[s.len() - y.len() + i]);
    }
}

/// A digit character has the digit's value.
proof fn lemma_digit(k: nat)
    requires
        k < 10,
    ensures
        digit_value(digit_char(k)) == k,
        is_digit(digit_char(k)),
        digit_char(k) != '+',
        !is_ws(digit_char(k)),
{
    assert(digit_char(k) as u32 == 48 + k);
}

/// The decimal representation of a number is its digits.
pub proof fn lemma_decimal(n: nat)
    ensures
        decimal(n).len() > 0,
        all_digits(decimal(n)),
        digits_value(decimal(n)) == n,
        decimal(n)[0] != '+',
        !is_ws(decimal(n)[0]),
        !is_ws(decimal(n).last()),
    decreases n,
{
    lemma_digit(n % 10);
    if n >= 10 {
        lemma_decimal(n / 10);
        let d = decimal(n);
        assert(d.drop_last() =~= decimal(n / 10));
        assert(d[0] == decimal(n / 10)[0]);
        assert(d.last() == digit_char(n % 10));
        assert(digit_value(d.last()) == n % 10);
        assert(digits_value(d.drop_last()) == n / 10);
        assert(digits_value(d) == digits_value(d.drop_last()) * 10 + digit_value(d.last()));
        assert(n == (n / 10) * 10 + n % 10) by (nonlinear_arith);
    } else {
        let d = decimal(n);
        assert(d.drop_last() =~= Seq::<char>::empty());
        assert(n % 10 == n);
        assert(digits_value(Seq::<char>::empty()) == 0);
        assert(d.last() == digit_char(n));
        assert(digits_value(d) == digits_value(d.drop_last()) * 10 + digit_value(d.last()));
        assert(digits_value(d) == n);
    }
}

/// A digit string with no whitespace at its ends is left unchanged by `trim`.
pub proof fn lemma_trim_decimal(n: nat)
    ensures
        trim(decimal(n)) == decimal(n),
        parse_unsigned(decimal(n), n) == Some(n),
{
    lemma_decimal(n);
    assert(trim_start(decimal(n)) == decimal(n));
    assert(trim_end(decimal(n)) == decimal(n));
}


// ---------------------------------------------------------------------------
// Trimming a given character
// ---------------------------------------------------------------------------

/// `s` without leading copies of `c`.
pub open spec fn trim_char_start(s: Seq<char>, c: char) -> Seq<char>
    decreases s.len(),
{
    if s.len() > 0 && s[0] == c {
        trim_char_start(s.drop_first(), c)
    } else {
        s
    }
}

/// `s` without trailing copies of `c`.
pub open spec fn trim_char_end(s: Seq<char>, c: char) -> Seq<char>
    decreases s.len(),
{
    if s.len() > 0 && s.last() == c {
        trim_char_end(s.drop_last(), c)
    } else {
        s
    }
}

/// `str::trim_matches` with a character: `s` without copies of `c` at
/// either end.
pub open spec fn trim_char(s: Seq<char>, c: char) -> Seq<char> {
    trim_char_end(trim_char_start(s, c), c)
}

/// `str::trim_matches` with a character.
pub fn trim_matches_char(s: &str, c: char) -> (r: String)
    ensures
        r@ == trim_char(s@, c),
{
    let v = chars_of(s);
    let n = v.len();
    let mut a: usize = 0;
    assert(v@.subrange(0, n as int) =~= v@);
    while a < n && v[a] == c
        invariant
            a <= n == v@.len(),
            v@ == s@,
            trim_char_start(s@, c) == trim_char_start(v@.subrange(a as int, n as int), c),
        decreases n - a,
    {
        assert(v@.subrange(a as int, n as int).drop_first() =~= v@.subrange(a + 1, n as int));
        a = a + 1;
    }
    assert(trim_char_start(v@.subrange(a as int, n as int), c) == v@.subrange(a as int, n as int));
    let mut b = n;
    while b > a && v[b - 1] == c
        invariant
            a <= b <= n == v@.len(),
            trim_char_end(v@.subrange(a as int, n as int), c) == trim_char_end(
                v@.subrange(a as int, b as int),
                c,
            ),
        decreases b - a,
    {
        assert(v@.subrange(a as int, b as int).drop_last() =~= v@.subrange(a as int, b - 1));
        b = b - 1;
    }
    string_of(&v, a, b)
}

} // verus!
