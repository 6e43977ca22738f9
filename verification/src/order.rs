//! The order of strings (character by character, as `str`'s `Ord` compares
//! them) and sorting by it.
use vstd::prelude::*;
use crate::text::chars_of;

verus! {

/// `a` comes strictly before `b`: at the first position where they differ,
/// `a` has the smaller character, or `a` is a proper prefix of `b`.
pub open spec fn lex_lt(a: Seq<char>, b: Seq<char>) -> bool
    decreases a.len(),
{
    if a.len() == 0 {
        b.len() > 0
    } else if b.len() == 0 {
        false
    } else if a[0] != b[0] {
        a[0] < b[0]
    } else {
        lex_lt(a.drop_first(), b.drop_first())
    }
}

/// `a` comes before `b` or equals it.
pub open spec fn lex_le(a: Seq<char>, b: Seq<char>) -> bool {
    !lex_lt(b, a)
}

/// No sequence comes before itself.
pub proof fn lemma_lex_irreflexive(a: Seq<char>)
    ensures
        !lex_lt(a, a),
    decreases a.len(),
{
    if a.len() > 0 {
        lemma_lex_irreflexive(a.drop_first());
    }
}

/// The order is transitive.
pub proof fn lemma_lex_transitive(a: Seq<char>, b: Seq<char>, c: Seq<char>)
    requires
        lex_lt(a, b),
        lex_lt(b, c),
    ensures
        lex_lt(a, c),
    decreases a.len(),
{
    if a.len() > 0 && b.len() > 0 && c.len() > 0 && a[0] == b[0] && b[0] == c[0] {
        lemma_lex_transitive(a.drop_first(), b.drop_first(), c.drop_first());
    }
}

/// Two different sequences are ordered one way or the other, and not both.
pub proof fn lemma_lex_total(a: Seq<char>, b: Seq<char>)
    ensures
        a != b ==> (lex_lt(a, b) || lex_lt(b, a)),
        !(lex_lt(a, b) && lex_lt(b, a)),
    decreases a.len(),
{
    if a.len() > 0 && b.len() > 0 && a[0] == b[0] {
        lemma_lex_total(a.drop_first(), b.drop_first());
        if a.drop_first() == b.drop_first() {
            assert(a =~= seq![a[0]] + a.drop_first());
            assert(b =~= seq![b[0]] + b.drop_first());
        }
    } else if a.len() == 0 && b.len() == 0 {
        assert(a =~= b);
    }
}

/// Whether `a` comes strictly before `b`.
pub fn str_lt(a: &str, b: &str) -> (r: bool)
    ensures
        r == lex_lt(a@, b@),
{
    let x = chars_of(a);
    let y = chars_of(b);
    let mut i: usize = 0;
    assert(x@.skip(0) =~= x@);
    assert(y@.skip(0) =~= y@);
    while i < x.len() && i < y.len() && x[i] == y[i]
        invariant
            i <= x@.len(),
            i <= y@.len(),
            lex_lt(a@, b@) == lex_lt(x@.skip(i as int), y@.skip(i as int)),
            x@ == a@,
            y@ == b@,
        decreases x@.len() - i,
    {
        assert(x@.skip(i as int).drop_first() =~= x@.skip(i + 1));
        assert(y@.skip(i as int).drop_first() =~= y@.skip(i + 1));
        i = i + 1;
    }
    if i == x.len() {
        i < y.len()
    } else if i == y.len() {
        false
    } else {
        x[i] < y[i]
    }
}

/// Whether two strings hold the same characters.
pub fn str_eq(a: &str, b: &str) -> (r: bool)
    ensures
        r == (a@ == b@),
{
    let x = chars_of(a);
    let y = chars_of(b);
    if x.len() != y.len() {
        return false;
    }
    let mut i: usize = 0;
    while i < x.len()
        invariant
            i <= x@.len() == y@.len(),
            forall|j: int| 0 <= j < i ==> x@[j] == y@[j],
            x@ == a@,
            y@ == b@,
        decreases x@.len() - i,
    {
        if x[i] != y[i] {
            return false;
        }
        i = i + 1;
    }
    assert(x@ =~= y@);
    true
}

/// The sequence is in non-decreasing order.
pub open spec fn sorted(s: Seq<Seq<char>>) -> bool {
    forall|i: int, j: int| 0 <= i < j < s.len() ==> lex_le(s[i], s[j])
}

/// A sorted copy of `v`: the same strings, each as often, in non-decreasing
/// order (equal strings keep their relative order).
pub fn sort_strings(v: Vec<String>) -> (r: Vec<String>)
    ensures
        sorted(r.deep_view()),
        r.deep_view().to_multiset() == v.deep_view().to_multiset(),
{
    let mut out: Vec<String> = Vec::new();
    let mut i: usize = 0;
    let n = v.len();
    let ghost src = v.deep_view();
    let mut rest = v;
    broadcast use vstd::seq_lib::group_to_multiset_ensures;
    assert(src.take(0) =~= Seq::<Seq<char>>::empty());
    assert(out.deep_view() =~= Seq::<Seq<char>>::empty());
    while i < n
        invariant
            n == src.len(),
            rest.deep_view() == src,
            i <= n,
            sorted(out.deep_view()),
            out.deep_view().to_multiset() == src.take(i as int).to_multiset(),
        decreases n - i,
    {
        let x = rest[i].clone();
        let mut pos: usize = 0;
        while pos < out.len() && !str_lt(x.as_str(), out[pos].as_str())
            invariant
                pos <= out@.len(),
                forall|j: int| 0 <= j < pos ==> lex_le(out.deep_view()[j], x@),
            decreases out@.len() - pos,
        {
            pos = pos + 1;
        }
        let ghost before = out.deep_view();
        out.insert(pos, x);
        proof {
            let after = out.deep_view();
            assert(after =~= before.insert(pos as int, x@));
            assert(x@ == src[i as int]);
            assert forall|a: int, b: int| 0 <= a < b < after.len() implies lex_le(
                after[a],
                after[b],
            ) by {
                if a < pos && b == pos {
                } else if a == pos && b > pos {
                    // x comes strictly before before[pos], which is at most after[b]
                    let y = before[pos as int];
                    assert(lex_lt(x@, y));
                    if b > pos + 1 {
                        assert(lex_le(y, after[b]));
                        if lex_lt(after[b], x@) {
                            lemma_lex_transitive(after[b], x@, y);
                            lemma_lex_total(after[b], y);
                        }
                    } else {
                        lemma_lex_total(x@, y);
                    }
                } else if a < pos && b > pos {
                } else {
                }
            }
            assert(after.remove(pos as int) =~= before);
            assert(after[pos as int] == x@);
            assert(src.take(i + 1) =~= src.take(i as int).push(x@));
            after.to_multiset_ensures();
            assert(after.remove(pos as int).to_multiset() =~= after.to_multiset().remove(after[pos as int]));
            assert(after.to_multiset().remove(x@) =~= before.to_multiset());
            assert(after.contains(x@));
            assert(after.to_multiset().count(x@) > 0);
            assert(after.to_multiset() =~= before.to_multiset().insert(x@));
            src.take(i as int).to_multiset_ensures();
            assert(src.take(i as int).push(x@).to_multiset() =~= src.take(i as int).to_multiset().insert(x@));
            assert(after.to_multiset() == src.take(i + 1).to_multiset());
        }
        i = i + 1;
    }
    assert(src.take(n as int) =~= src);
    out
}

} // verus!
