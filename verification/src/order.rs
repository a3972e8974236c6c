//! Ordering texts the way `String`'s `Ord` does, and sorting by a text key.
//!
//! `String` compares its UTF-8 bytes lexicographically. UTF-8 keeps the
//! order of code points, so on characters this is the lexicographic order of
//! their codes, which is what `lex_le` states.
use vstd::prelude::*;

verus! {

broadcast use vstd::seq_lib::group_to_multiset_ensures, vstd::multiset::group_multiset_axioms;

/// `a <= b` in the lexicographic order of character codes.
pub open spec fn lex_le(a: Seq<char>, b: Seq<char>) -> bool
    decreases a.len(),
{
    if a.len() == 0 {
        true
    } else if b.len() == 0 {
        false
    } else if a[0] != b[0] {
        a[0] < b[0]
    } else {
        lex_le(a.drop_first(), b.drop_first())
    }
}

/// Any two texts are ordered one way or the other.
pub proof fn lemma_lex_total(a: Seq<char>, b: Seq<char>)
    ensures
        lex_le(a, b) || lex_le(b, a),
    decreases a.len(),
{
    if a.len() > 0 && b.len() > 0 && a[0] == b[0] {
        lemma_lex_total(a.drop_first(), b.drop_first());
    }
}

/// The order is transitive.
pub proof fn lemma_lex_transitive(a: Seq<char>, b: Seq<char>, c: Seq<char>)
    requires
        lex_le(a, b),
        lex_le(b, c),
    ensures
        lex_le(a, c),
    decreases a.len(),
{
    if a.len() > 0 && b.len() > 0 && c.len() > 0 && a[0] == b[0] && b[0] == c[0] {
        lemma_lex_transitive(a.drop_first(), b.drop_first(), c.drop_first());
    }
}

/// Texts ordered both ways are equal.
pub proof fn lemma_lex_antisymmetric(a: Seq<char>, b: Seq<char>)
    requires
        lex_le(a, b),
        lex_le(b, a),
    ensures
        a == b,
    decreases a.len(),
{
    if a.len() > 0 && b.len() > 0 {
        lemma_lex_antisymmetric(a.drop_first(), b.drop_first());
        assert(a =~= seq![a[0]] + a.drop_first());
        assert(b =~= seq![b[0]] + b.drop_first());
    }
}

/// Executable `lex_le`.
pub fn lex_le_str(a: &str, b: &str) -> (r: bool)
    ensures
        r == lex_le(a@, b@),
{
    let x = crate::text::to_chars(a);
    let y = crate::text::to_chars(b);
    let mut i: usize = 0;
    assert(x@.skip(0) =~= x@ && y@.skip(0) =~= y@);
    while i < x.len() && i < y.len() && x[i] == y[i]
        invariant
            i <= x.len(),
            i <= y.len(),
            lex_le(x@, y@) == lex_le(x@.skip(i as int), y@.skip(i as int)),
        decreases x.len() - i,
    {
        proof {
            assert(x@.skip(i as int).drop_first() =~= x@.skip(i + 1));
            assert(y@.skip(i as int).drop_first() =~= y@.skip(i + 1));
        }
        i = i + 1;
    }
    if i == x.len() {
        true
    } else if i == y.len() {
        false
    } else {
        x[i] < y[i]
    }
}

/// Pairs ordered by their text key.
pub open spec fn sorted_by_key<T>(s: Seq<(String, T)>) -> bool {
    forall|i: int, j: int| 0 <= i < j < s.len() ==> lex_le((#[trigger] s[i]).0@, (#[trigger] s[j]).0@)
}

/// Sorts pairs by their text key, in the order of `String`'s `Ord`; the
/// result holds the same pairs (`sort_by(|a, b| a.0.cmp(&b.0))`).
pub fn sort_by_key<T>(v: Vec<(String, T)>) -> (r: Vec<(String, T)>)
    ensures
        sorted_by_key(r@),
        r@.to_multiset() == v@.to_multiset(),
{
    let mut rest = v;
    let mut r: Vec<(String, T)> = Vec::new();
    while rest.len() > 0
        invariant
            sorted_by_key(r@),
            r@.to_multiset().add(rest@.to_multiset()) == v@.to_multiset(),
        decreases rest.len(),
    {
        let ghost before = rest@;
        let x = rest.pop().unwrap();
        proof {
            assert(before =~= rest@.push(x));
            vstd::seq_lib::to_multiset_build(rest@, x);
        }
        let mut pos: usize = 0;
        while pos < r.len() && !lex_le_str(x.0.as_str(), r[pos].0.as_str())
            invariant
                pos <= r.len(),
                sorted_by_key(r@),
                forall|j: int| 0 <= j < pos ==> !lex_le(x.0@, (#[trigger] r@[j]).0@),
            decreases r.len() - pos,
        {
            pos = pos + 1;
        }
        let ghost old_r = r@;
        proof {
            assert forall|j: int| 0 <= j < pos implies lex_le((#[trigger] old_r[j]).0@, x.0@) by {
                lemma_lex_total(old_r[j].0@, x.0@);
            }
            if pos < old_r.len() {
                assert forall|j: int| pos <= j < old_r.len() implies lex_le(
                    x.0@,
                    (#[trigger] old_r[j]).0@,
                ) by {
                    if j > pos {
                        lemma_lex_transitive(x.0@, old_r[pos as int].0@, old_r[j].0@);
                    }
                }
            }
            vstd::seq_lib::to_multiset_insert(old_r, pos as int, x);
        }
        r.insert(pos, x);
        proof {
            assert(r@ == old_r.insert(pos as int, x));
            assert forall|i: int, j: int| 0 <= i < j < r@.len() implies lex_le(
                (#[trigger] r@[i]).0@,
                (#[trigger] r@[j]).0@,
            ) by {
                if i < pos && j < pos {
                    assert(r@[i] == old_r[i] && r@[j] == old_r[j]);
                } else if i < pos && j == pos {
                    assert(r@[i] == old_r[i]);
                } else if i < pos {
                    assert(r@[i] == old_r[i] && r@[j] == old_r[j - 1]);
                    lemma_lex_transitive(old_r[i].0@, x.0@, old_r[j - 1].0@);
                } else if i == pos {
                    assert(r@[j] == old_r[j - 1]);
                } else {
                    assert(r@[i] == old_r[i - 1] && r@[j] == old_r[j - 1]);
                }
            }
            assert(r@.to_multiset().add(rest@.to_multiset()) =~= v@.to_multiset());
        }
    }
    proof {
        assert(rest@ =~= Seq::<(String, T)>::empty());
        assert(r@.to_multiset() =~= r@.to_multiset().add(rest@.to_multiset()));
    }
    r
}

/// Two key-sorted sequences with the same pairs and no repeated key are
/// equal: sorting pairs with distinct keys has exactly one answer.
pub proof fn law_sorted_unique<T>(a: Seq<(String, T)>, b: Seq<(String, T)>)
    requires
        sorted_by_key(a),
        sorted_by_key(b),
        a.to_multiset() == b.to_multiset(),
        forall|i: int, j: int| 0 <= i < j < a.len() ==> (#[trigger] a[i]).0@ != (#[trigger] a[j]).0@,
    ensures
        a == b,
    decreases a.len(),
{
    a.to_multiset_ensures();
    b.to_multiset_ensures();
    if a.len() == 0 {
        assert(b.len() == 0);
        assert(a =~= b);
    } else {
        assert(a.to_multiset().count(a[0]) > 0);
        assert(b.contains(a[0]));
        let k = choose|k: int| 0 <= k < b.len() && b[k] == a[0];
        assert(b.to_multiset().count(b[0]) > 0);
        assert(a.contains(b[0]));
        let m = choose|m: int| 0 <= m < a.len() && a[m] == b[0];
        if k > 0 && m > 0 {
            // b[0]'s key is at most a[0]'s (in b) and a[0]'s at most b[0]'s (in a).
            assert(lex_le(b[0].0@, b[k].0@));
            assert(lex_le(a[0].0@, a[m].0@));
            lemma_lex_antisymmetric(a[0].0@, b[0].0@);
            assert(a[m].0@ == a[0].0@);
            assert(false);
        }
        assert(a[0] == b[0]);
        vstd::seq_lib::to_multiset_remove(a, 0);
        vstd::seq_lib::to_multiset_remove(b, 0);
        assert(a.remove(0) =~= a.drop_first());
        assert(b.remove(0) =~= b.drop_first());
        let a1 = a.drop_first();
        let b1 = b.drop_first();
        assert forall|i: int, j: int| 0 <= i < j < a1.len() implies (#[trigger] a1[i]).0@ != (
        #[trigger] a1[j]).0@ by {
            assert(a1[i] == a[i + 1] && a1[j] == a[j + 1]);
        }
        assert forall|i: int, j: int| 0 <= i < j < a1.len() implies lex_le(
            (#[trigger] a1[i]).0@,
            (#[trigger] a1[j]).0@,
        ) by {
            assert(a1[i] == a[i + 1] && a1[j] == a[j + 1]);
        }
        assert forall|i: int, j: int| 0 <= i < j < b1.len() implies lex_le(
            (#[trigger] b1[i]).0@,
            (#[trigger] b1[j]).0@,
        ) by {
            assert(b1[i] == b[i + 1] && b1[j] == b[j + 1]);
        }
        law_sorted_unique(a1, b1);
        assert(a =~= seq![a[0]] + a1);
        assert(b =~= seq![b[0]] + b1);
    }
}

} // verus!
