//! Facts about `lines`, `join`, `contains` and `trim_end` used by the proofs
//! about hook files and prompts.
use vstd::prelude::*;
use crate::text::{contains, first_index, is_ws, join, lemma_first_index, lemma_lines_step, lemma_trim_end, lines, occurs_at, str_views, strip_cr, trim_end};

verus! {

/// A text with no `\n` in it.
pub open spec fn no_newline(s: Seq<char>) -> bool {
    forall|j: int| 0 <= j < s.len() ==> s[j] != '\n'
}

/// A text with no `\r` in it.
pub open spec fn no_cr(s: Seq<char>) -> bool {
    forall|j: int| 0 <= j < s.len() ==> s[j] != '\r'
}

/// `lines` splits at a point right after a `\n`.
pub proof fn lemma_lines_concat(x: Seq<char>, y: Seq<char>)
    requires
        x.len() == 0 || x.last() == '\n',
    ensures
        lines(x + y) == lines(x) + lines(y),
    decreases x.len(),
{
    if x.len() == 0 {
        assert(x + y =~= y);
        assert(lines(x) =~= Seq::<Seq<char>>::empty());
        assert(lines(x) + lines(y) =~= lines(y));
    } else {
        lemma_first_index(x, '\n');
        let i = first_index(x, '\n');
        assert(i < x.len()) by {
            if i >= x.len() {
                assert(x[x.len() - 1] != '\n');
            }
        }
        lemma_lines_step(x, i);
        assert forall|j: int| 0 <= j < i implies (x + y)[j] != '\n' by {
            assert((x + y)[j] == x[j]);
        }
        assert((x + y)[i] == '\n');
        lemma_lines_step(x + y, i);
        assert((x + y).take(i) =~= x.take(i));
        assert((x + y).skip(i + 1) =~= x.skip(i + 1) + y);
        let rest = x.skip(i + 1);
        assert(rest.len() == 0 || rest.last() == '\n') by {
            if rest.len() > 0 {
                assert(rest.last() == x.last());
            }
        }
        lemma_lines_concat(rest, y);
        assert(lines(x + y) =~= lines(x) + lines(y));
    }
}

/// `lines` of a single line followed by a `\n`.
pub proof fn lemma_lines_single(a: Seq<char>)
    requires
        no_newline(a),
    ensures
        lines(a.push('\n')) == seq![strip_cr(a)],
{
    let x = a.push('\n');
    assert forall|j: int| 0 <= j < a.len() implies x[j] != '\n' by {
        assert(x[j] == a[j]);
    }
    lemma_lines_step(x, a.len() as int);
    assert(x.take(a.len() as int) =~= a);
    assert(x.skip(a.len() as int + 1) =~= Seq::<char>::empty());
}

/// `join` with one more part in front.
pub proof fn lemma_join_prepend(a: Seq<char>, rest: Seq<Seq<char>>, sep: Seq<char>)
    requires
        rest.len() > 0,
    ensures
        join(seq![a] + rest, sep) == a + sep + join(rest, sep),
    decreases rest.len(),
{
    let all = seq![a] + rest;
    if rest.len() == 1 {
        assert(all.drop_last() =~= seq![a]);
        assert(all.last() == rest[0]);
        assert(join(seq![a], sep) == a);
        assert(join(rest, sep) == rest[0]);
        assert(join(all, sep) == join(all.drop_last(), sep) + sep + all.last());
    } else {
        assert(all.drop_last() =~= seq![a] + rest.drop_last());
        lemma_join_prepend(a, rest.drop_last(), sep);
        assert(all.last() == rest.last());
        assert(join(all, sep) == join(all.drop_last(), sep) + sep + all.last());
        assert(join(rest, sep) == join(rest.drop_last(), sep) + sep + rest.last());
        assert(join(all, sep) =~= a + sep + join(rest, sep));
    }
}

/// `join` with one more part at the end.
pub proof fn lemma_join_append(ls: Seq<Seq<char>>, e: Seq<char>, sep: Seq<char>)
    requires
        ls.len() > 0,
    ensures
        join(ls + seq![e], sep) == join(ls, sep) + sep + e,
{
    let all = ls + seq![e];
    assert(all.drop_last() =~= ls);
    assert(all.last() == e);
}

/// Joining the lines of `x` followed by a `\n` gives back `x`, when `x` has no `\r`.
pub proof fn lemma_join_lines_terminated(x: Seq<char>)
    requires
        no_cr(x),
    ensures
        join(lines(x.push('\n')), seq!['\n']) == x,
    decreases x.len(),
{
    let xs = x.push('\n');
    lemma_first_index(x, '\n');
    let i = first_index(x, '\n');
    if i >= x.len() {
        lemma_lines_single(x);
        assert(strip_cr(x) == x) by {
            if x.len() > 0 {
                assert(x.last() != '\r');
            }
        }
    } else {
        assert forall|j: int| 0 <= j < i implies xs[j] != '\n' by {
            assert(xs[j] == x[j]);
        }
        lemma_lines_step(xs, i);
        let a = xs.take(i);
        let r = x.skip(i + 1);
        assert(xs.skip(i + 1) =~= r.push('\n'));
        assert(no_cr(r)) by {
            assert forall|j: int| 0 <= j < r.len() implies r[j] != '\r' by {
                assert(r[j] == x[i + 1 + j]);
            }
        }
        lemma_join_lines_terminated(r);
        assert(strip_cr(a) == a) by {
            if a.len() > 0 {
                assert(a.last() == x[i - 1]);
            }
        }
        assert(lines(r.push('\n')).len() > 0);
        lemma_join_prepend(a, lines(r.push('\n')), seq!['\n']);
        assert(a + seq!['\n'] + r =~= x);
    }
}

/// `trim_end` ignores whitespace appended at the end.
pub proof fn lemma_trim_end_push_ws(s: Seq<char>, c: char)
    requires
        is_ws(c),
    ensures
        trim_end(s.push(c)) == trim_end(s),
{
    assert(s.push(c).drop_last() =~= s);
}

/// `trim_end` is idempotent.
pub proof fn lemma_trim_end_idempotent(s: Seq<char>)
    ensures
        trim_end(trim_end(s)) == trim_end(s),
{
    lemma_trim_end(s);
}

/// A text with no occurrence of `m` keeps none in any prefix.
pub proof fn lemma_no_contains_prefix(s: Seq<char>, n: int, m: Seq<char>)
    requires
        0 <= n <= s.len(),
        !contains(s, m),
    ensures
        !contains(s.take(n), m),
{
    if contains(s.take(n), m) {
        let i = choose|i: int| occurs_at(s.take(n), m, i);
        assert(s.take(n).subrange(i, i + m.len()) =~= s.subrange(i, i + m.len()));
        assert(occurs_at(s, m, i));
    }
}

/// A text with no occurrence of `m` keeps none in any subrange.
pub proof fn lemma_no_contains_subrange(s: Seq<char>, a: int, b: int, m: Seq<char>)
    requires
        0 <= a <= b <= s.len(),
        !contains(s, m),
    ensures
        !contains(s.subrange(a, b), m),
{
    if contains(s.subrange(a, b), m) {
        let i = choose|i: int| occurs_at(s.subrange(a, b), m, i);
        assert(s.subrange(a, b).subrange(i, i + m.len()) =~= s.subrange(a + i, a + i + m.len()));
        assert(occurs_at(s, m, a + i));
    }
}

/// No line of `s` holds `m` when `s` does not.
pub proof fn lemma_lines_no_contains(s: Seq<char>, m: Seq<char>)
    requires
        !contains(s, m),
    ensures
        forall|k: int| 0 <= k < lines(s).len() ==> !contains(#[trigger] lines(s)[k], m),
    decreases s.len(),
{
    if s.len() > 0 {
        lemma_first_index(s, '\n');
        let i = first_index(s, '\n');
        if i >= s.len() {
            assert(lines(s) == seq![s]);
        } else {
            lemma_lines_step(s, i);
            let r = s.skip(i + 1);
            lemma_no_contains_subrange(s, i + 1, s.len() as int, m);
            assert(s.subrange(i + 1, s.len() as int) =~= r);
            lemma_lines_no_contains(r, m);
            lemma_no_contains_subrange(s, 0, i, m);
            let p = s.take(i);
            assert(s.subrange(0, i) =~= p);
            assert(!contains(strip_cr(p), m)) by {
                if p.len() > 0 && p.last() == '\r' {
                    lemma_no_contains_prefix(p, p.len() - 1, m);
                    assert(p.take(p.len() - 1) =~= p.drop_last());
                }
            }
            assert forall|k: int| 0 <= k < lines(s).len() implies !contains(
                #[trigger] lines(s)[k],
                m,
            ) by {
                if k > 0 {
                    assert(lines(s)[k] == lines(r)[k - 1]);
                }
            }
        }
    }
}

/// Appending a character that does not end an occurrence adds no occurrence.
pub proof fn lemma_no_contains_push(s: Seq<char>, c: char, m: Seq<char>)
    requires
        !contains(s, m),
        m.len() > 0,
        forall|j: int| 0 <= j < m.len() ==> m[j] != c,
    ensures
        !contains(s.push(c), m),
{
    if contains(s.push(c), m) {
        let i = choose|i: int| occurs_at(s.push(c), m, i);
        if i + m.len() <= s.len() {
            assert(s.push(c).subrange(i, i + m.len()) =~= s.subrange(i, i + m.len()));
            assert(occurs_at(s, m, i));
        } else {
            assert(s.push(c).subrange(i, i + m.len())[m.len() - 1] == c);
        }
    }
}

/// One more element of a prefix either joins the filtered prefix or not.
pub proof fn lemma_filter_step<A>(s: Seq<A>, i: int, pred: spec_fn(A) -> bool)
    requires
        0 <= i < s.len(),
    ensures
        s.take(i + 1).filter(pred) == (if pred(s[i]) {
            s.take(i).filter(pred).push(s[i])
        } else {
            s.take(i).filter(pred)
        }),
{
    reveal(Seq::filter);
    assert(s.take(i + 1).drop_last() =~= s.take(i));
    assert(s.take(i + 1).last() == s[i]);
}

/// The views of strings after a push.
pub proof fn lemma_str_views_push(v: Seq<String>, x: String)
    ensures
        str_views(v.push(x)) == str_views(v).push(x@),
{
    assert(str_views(v.push(x)) =~= str_views(v).push(x@));
}

} // verus!
