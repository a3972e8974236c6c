//! Character-level text primitives shared by the rest of the library.
//!
//! Text is modelled as `Seq<char>`, the view of `str` and `String`. The
//! executable helpers work on `Vec<char>` and are proved against the spec
//! functions here, which follow the behaviour of the corresponding `str`
//! methods (`lines`, `trim_end`, `contains`, `starts_with`, `join`).
use vstd::prelude::*;

verus! {

/// Appends one character to a `String`.
/// Trusted: `String::push` adds the character at the end and changes nothing else.
#[verifier::external_body]
pub(crate) fn push_char(s: &mut String, c: char)
    ensures
        final(s)@ == old(s)@.push(c),
{
    s.push(c);
}

/// The characters of a string slice, in order.
pub fn to_chars(s: &str) -> (v: Vec<char>)
    ensures
        v@ == s@,
{
    let mut v: Vec<char> = Vec::new();
    for c in it: s.chars()
        invariant
            v@ == it.seq().take(it.index() as int),
    {
        v.push(c);
    }
    v
}

/// A `String` holding exactly the given characters.
pub fn from_chars(v: &Vec<char>) -> (s: String)
    ensures
        s@ == v@,
{
    let mut s = String::new();
    let mut i: usize = 0;
    while i < v.len()
        invariant
            i <= v.len(),
            s@ == v@.take(i as int),
        decreases v.len() - i,
    {
        push_char(&mut s, v[i]);
        i = i + 1;
        assert(s@ =~= v@.take(i as int));
    }
    assert(v@.take(v.len() as int) =~= v@);
    s
}

/// Appends all characters of `t` to `s`.
pub fn push_all(s: &mut String, t: &Vec<char>)
    ensures
        final(s)@ == old(s)@ + t@,
{
    let mut i: usize = 0;
    while i < t.len()
        invariant
            i <= t.len(),
            s@ == old(s)@ + t@.take(i as int),
        decreases t.len() - i,
    {
        push_char(s, t[i]);
        i = i + 1;
        assert(s@ =~= old(s)@ + t@.take(i as int));
    }
    assert(t@.take(t.len() as int) =~= t@);
}

/// Appends a string slice to `s`.
pub fn push_str(s: &mut String, t: &str)
    ensures
        final(s)@ == old(s)@ + t@,
{
    let v = to_chars(t);
    push_all(s, &v);
}

/// The views of a sequence of character vectors.
pub open spec fn views(vs: Seq<Vec<char>>) -> Seq<Seq<char>> {
    vs.map_values(|v: Vec<char>| v@)
}

/// The views of a sequence of strings.
pub open spec fn str_views(vs: Seq<String>) -> Seq<Seq<char>> {
    vs.map_values(|v: String| v@)
}

/// The text of an optional string.
pub open spec fn opt_view(o: Option<String>) -> Option<Seq<char>> {
    match o {
        Some(s) => Some(s@),
        None => None,
    }
}

/// The texts of an optional list of strings.
pub open spec fn opt_list_view(o: Option<Vec<String>>) -> Option<Seq<Seq<char>>> {
    match o {
        Some(v) => Some(str_views(v@)),
        None => None,
    }
}

// ---------------------------------------------------------------------------
// Whitespace and trimming
// ---------------------------------------------------------------------------

/// Unicode `White_Space`, the property behind `char::is_whitespace`.
pub open spec fn is_ws(c: char) -> bool {
    let u = c as u32;
    ||| (0x09 <= u && u <= 0x0D)
    ||| u == 0x20
    ||| u == 0x85
    ||| u == 0xA0
    ||| u == 0x1680
    ||| (0x2000 <= u && u <= 0x200A)
    ||| u == 0x2028
    ||| u == 0x2029
    ||| u == 0x202F
    ||| u == 0x205F
    ||| u == 0x3000
}

/// Executable form of [`is_ws`].
pub fn is_whitespace(c: char) -> (b: bool)
    ensures
        b == is_ws(c),
{
    let u = c as u32;
    (0x09 <= u && u <= 0x0D) || u == 0x20 || u == 0x85 || u == 0xA0 || u == 0x1680 || (0x2000 <= u
        && u <= 0x200A) || u == 0x2028 || u == 0x2029 || u == 0x202F || u == 0x205F || u == 0x3000
}

/// `str::trim_end`: the text without its trailing whitespace.
pub open spec fn trim_end(s: Seq<char>) -> Seq<char>
    decreases s.len(),
{
    if s.len() > 0 && is_ws(s.last()) {
        trim_end(s.drop_last())
    } else {
        s
    }
}

/// `str::trim_start`: the text without its leading whitespace.
pub open spec fn trim_start(s: Seq<char>) -> Seq<char>
    decreases s.len(),
{
    if s.len() > 0 && is_ws(s[0]) {
        trim_start(s.drop_first())
    } else {
        s
    }
}

/// `str::trim`.
pub open spec fn trim(s: Seq<char>) -> Seq<char> {
    trim_start(trim_end(s))
}

/// The result of `trim_end` is a prefix of the text that does not end in whitespace.
pub proof fn lemma_trim_end(s: Seq<char>)
    ensures
        trim_end(s).len() <= s.len(),
        trim_end(s) == s.take(trim_end(s).len() as int),
        trim_end(s).len() > 0 ==> !is_ws(trim_end(s).last()),
        forall|i: int| trim_end(s).len() <= i < s.len() ==> is_ws(#[trigger] s[i]),
    decreases s.len(),
{
    if s.len() > 0 && is_ws(s.last()) {
        lemma_trim_end(s.drop_last());
        assert(s.drop_last().take(trim_end(s).len() as int) =~= s.take(trim_end(s).len() as int));
        assert forall|i: int| trim_end(s).len() <= i < s.len() implies is_ws(#[trigger] s[i]) by {
            if i < s.len() - 1 {
                assert(s[i] == s.drop_last()[i]);
            }
        }
    } else {
        assert(s.take(s.len() as int) =~= s);
    }
}

/// The result of `trim_start` is a suffix of the text that does not start with whitespace.
pub proof fn lemma_trim_start(s: Seq<char>)
    ensures
        trim_start(s).len() <= s.len(),
        trim_start(s) == s.skip(s.len() - trim_start(s).len()),
        trim_start(s).len() > 0 ==> !is_ws(trim_start(s)[0]),
        forall|i: int| 0 <= i < s.len() - trim_start(s).len() ==> is_ws(#[trigger] s[i]),
    decreases s.len(),
{
    if s.len() > 0 && is_ws(s[0]) {
        lemma_trim_start(s.drop_first());
        let k = s.len() - trim_start(s).len();
        assert(s.drop_first().skip(k - 1) =~= s.skip(k));
        assert forall|i: int| 0 <= i < k implies is_ws(#[trigger] s[i]) by {
            if i > 0 {
                assert(s[i] == s.drop_first()[i - 1]);
            }
        }
    } else {
        assert(s.skip(0) =~= s);
    }
}

/// `trim_end` of a text that is a prefix followed by whitespace only.
pub proof fn lemma_trim_end_of_prefix(s: Seq<char>, n: int)
    requires
        0 <= n <= s.len(),
        n == 0 || !is_ws(s[n - 1]),
        forall|i: int| n <= i < s.len() ==> is_ws(#[trigger] s[i]),
    ensures
        trim_end(s) == s.take(n),
    decreases s.len(),
{
    if s.len() > n {
        assert(s.drop_last().take(n) =~= s.take(n));
        lemma_trim_end_of_prefix(s.drop_last(), n);
    } else {
        assert(s.take(n) =~= s);
    }
}

/// `trim_start` of a text that is whitespace followed by a suffix.
pub proof fn lemma_trim_start_of_suffix(s: Seq<char>, n: int)
    requires
        0 <= n <= s.len(),
        n == s.len() || !is_ws(s[n]),
        forall|i: int| 0 <= i < n ==> is_ws(#[trigger] s[i]),
    ensures
        trim_start(s) == s.skip(n),
    decreases s.len(),
{
    if n > 0 {
        assert(s.drop_first().skip(n - 1) =~= s.skip(n));
        assert forall|i: int| 0 <= i < n - 1 implies is_ws(#[trigger] s.drop_first()[i]) by {
            assert(s.drop_first()[i] == s[i + 1]);
        }
        lemma_trim_start_of_suffix(s.drop_first(), n - 1);
    } else {
        assert(s.skip(0) =~= s);
    }
}

/// Executable `trim_end` on a character vector.
pub fn trim_end_chars(s: &Vec<char>) -> (r: Vec<char>)
    ensures
        r@ == trim_end(s@),
{
    let mut n = s.len();
    while n > 0 && is_whitespace(s[n - 1])
        invariant
            n <= s.len(),
            forall|i: int| n <= i < s.len() ==> is_ws(#[trigger] s@[i]),
        decreases n,
    {
        n = n - 1;
    }
    proof {
        lemma_trim_end_of_prefix(s@, n as int);
    }
    slice_chars(s, 0, n)
}

/// Executable `trim` on a character vector.
pub fn trim_chars(s: &Vec<char>) -> (r: Vec<char>)
    ensures
        r@ == trim(s@),
{
    let e = trim_end_chars(s);
    let mut k: usize = 0;
    while k < e.len() && is_whitespace(e[k])
        invariant
            k <= e.len(),
            forall|i: int| 0 <= i < k ==> is_ws(#[trigger] e@[i]),
        decreases e.len() - k,
    {
        k = k + 1;
    }
    proof {
        lemma_trim_start_of_suffix(e@, k as int);
    }
    let r = slice_chars(&e, k, e.len());
    assert(r@ =~= e@.skip(k as int));
    r
}

/// The characters `s[from..to]`.
pub fn slice_chars(s: &Vec<char>, from: usize, to: usize) -> (r: Vec<char>)
    requires
        from <= to <= s.len(),
    ensures
        r@ == s@.subrange(from as int, to as int),
{
    let mut r: Vec<char> = Vec::new();
    let mut i = from;
    while i < to
        invariant
            from <= i <= to <= s.len(),
            r@ == s@.subrange(from as int, i as int),
        decreases to - i,
    {
        r.push(s[i]);
        i = i + 1;
        assert(r@ =~= s@.subrange(from as int, i as int));
    }
    r
}

// ---------------------------------------------------------------------------
// Prefixes and substrings
// ---------------------------------------------------------------------------

/// `str::starts_with` for a text pattern.
pub open spec fn starts_with(s: Seq<char>, p: Seq<char>) -> bool {
    p.len() <= s.len() && s.take(p.len() as int) == p
}

/// `pat` occurs in `s` at position `i`.
pub open spec fn occurs_at(s: Seq<char>, pat: Seq<char>, i: int) -> bool {
    0 <= i && i + pat.len() <= s.len() && s.subrange(i, i + pat.len()) == pat
}

/// `str::contains` for a text pattern.
pub open spec fn contains(s: Seq<char>, pat: Seq<char>) -> bool {
    exists|i: int| occurs_at(s, pat, i)
}

/// Executable `starts_with`.
pub fn starts_with_chars(s: &Vec<char>, p: &Vec<char>) -> (b: bool)
    ensures
        b == starts_with(s@, p@),
{
    if p.len() > s.len() {
        return false;
    }
    let mut i: usize = 0;
    while i < p.len()
        invariant
            p.len() <= s.len(),
            i <= p.len(),
            forall|j: int| 0 <= j < i ==> s@[j] == p@[j],
        decreases p.len() - i,
    {
        if s[i] != p[i] {
            assert(s@.take(p.len() as int)[i as int] != p@[i as int]);
            return false;
        }
        i = i + 1;
    }
    assert(s@.take(p.len() as int) =~= p@);
    true
}

/// Whether `pat` occurs in `s` at position `i` (executable).
pub fn occurs_at_chars(s: &Vec<char>, pat: &Vec<char>, i: usize) -> (b: bool)
    ensures
        b == occurs_at(s@, pat@, i as int),
{
    if i > s.len() || pat.len() > s.len() - i {
        return false;
    }
    let mut k: usize = 0;
    while k < pat.len()
        invariant
            i + pat.len() <= s.len(),
            k <= pat.len(),
            forall|j: int| 0 <= j < k ==> s@[i + j] == pat@[j],
        decreases pat.len() - k,
    {
        if s[i + k] != pat[k] {
            assert(s@.subrange(i as int, i + pat.len())[k as int] != pat@[k as int]);
            return false;
        }
        k = k + 1;
    }
    assert(s@.subrange(i as int, i + pat.len()) =~= pat@);
    true
}

/// The first position at or after `from` where `pat` occurs, if any.
pub fn find_from(s: &Vec<char>, pat: &Vec<char>, from: usize) -> (r: Option<usize>)
    ensures
        match r {
            Some(i) => from <= i && occurs_at(s@, pat@, i as int) && forall|j: int|
                from <= j < i ==> !occurs_at(s@, pat@, j),
            None => forall|j: int| from <= j ==> !occurs_at(s@, pat@, j),
        },
{
    if from > s.len() {
        return None;
    }
    let mut i = from;
    while i < s.len()
        invariant
            from <= i <= s.len(),
            forall|j: int| from <= j < i ==> !occurs_at(s@, pat@, j),
        decreases s.len() - i,
    {
        if occurs_at_chars(s, pat, i) {
            return Some(i);
        }
        i = i + 1;
    }
    if occurs_at_chars(s, pat, i) {
        return Some(i);
    }
    None
}

/// Executable `contains`.
pub fn contains_chars(s: &Vec<char>, pat: &Vec<char>) -> (b: bool)
    ensures
        b == contains(s@, pat@),
{
    match find_from(s, pat, 0) {
        Some(i) => true,
        None => false,
    }
}

// ---------------------------------------------------------------------------
// Lines
// ---------------------------------------------------------------------------

/// Position of the first `c` in `s`, or `s.len()` when there is none.
pub open spec fn first_index(s: Seq<char>, c: char) -> int
    decreases s.len(),
{
    if s.len() == 0 {
        0
    } else if s[0] == c {
        0
    } else {
        1 + first_index(s.drop_first(), c)
    }
}

pub proof fn lemma_first_index(s: Seq<char>, c: char)
    ensures
        0 <= first_index(s, c) <= s.len(),
        forall|j: int| 0 <= j < first_index(s, c) ==> s[j] != c,
        first_index(s, c) < s.len() ==> s[first_index(s, c)] == c,
    decreases s.len(),
{
    if s.len() > 0 && s[0] != c {
        lemma_first_index(s.drop_first(), c);
        assert forall|j: int| 0 <= j < first_index(s, c) implies s[j] != c by {
            if j > 0 {
                assert(s[j] == s.drop_first()[j - 1]);
            }
        }
    }
}

/// Any position that satisfies the characterisation is `first_index`.
pub proof fn lemma_first_index_unique(s: Seq<char>, c: char, i: int)
    requires
        0 <= i <= s.len(),
        forall|j: int| 0 <= j < i ==> s[j] != c,
        i < s.len() ==> s[i] == c,
    ensures
        first_index(s, c) == i,
{
    lemma_first_index(s, c);
    let f = first_index(s, c);
    if f < i {
        assert(s[f] == c);
    } else if i < f {
        assert(s[i] != c);
    }
}

/// A line without its line terminator: a `\r` right before the `\n` is dropped.
pub open spec fn strip_cr(piece: Seq<char>) -> Seq<char> {
    if piece.len() > 0 && piece.last() == '\r' {
        piece.drop_last()
    } else {
        piece
    }
}

/// `str::lines`: the text split at `\n` (and `\r\n`); a final line terminator
/// does not start an empty line.
pub open spec fn lines(s: Seq<char>) -> Seq<Seq<char>>
    decreases s.len(),
{
    if s.len() == 0 {
        seq![]
    } else {
        let i = first_index(s, '\n');
        if i >= s.len() {
            seq![s]
        } else {
            proof {
                lemma_first_index(s, '\n');
            }
            seq![strip_cr(s.take(i))] + lines(s.skip(i + 1))
        }
    }
}

/// `lines` of a text whose first line ends at `i`.
pub proof fn lemma_lines_step(s: Seq<char>, i: int)
    requires
        0 <= i < s.len(),
        s[i] == '\n',
        forall|j: int| 0 <= j < i ==> s[j] != '\n',
    ensures
        lines(s) == seq![strip_cr(s.take(i))] + lines(s.skip(i + 1)),
{
    lemma_first_index_unique(s, '\n', i);
}

/// `lines` of a text without any `\n`.
pub proof fn lemma_lines_last(s: Seq<char>)
    requires
        s.len() > 0,
        forall|j: int| 0 <= j < s.len() ==> s[j] != '\n',
    ensures
        lines(s) == seq![s],
{
    lemma_first_index_unique(s, '\n', s.len() as int);
}

/// Executable `lines`.
pub fn split_lines(s: &Vec<char>) -> (r: Vec<Vec<char>>)
    ensures
        views(r@) == lines(s@),
{
    let mut r: Vec<Vec<char>> = Vec::new();
    let mut pos: usize = 0;
    let nl = vec!['\n'];
    assert(s@.skip(0) =~= s@);
    assert(views(r@) =~= Seq::<Seq<char>>::empty());
    assert(views(r@) + lines(s@) =~= lines(s@));
    while pos < s.len()
        invariant
            pos <= s.len(),
            nl@ == seq!['\n'],
            lines(s@) == views(r@) + lines(s@.skip(pos as int)),
        decreases s.len() - pos,
    {
        let ghost t = s@.skip(pos as int);
        match find_from(s, &nl, pos) {
            Some(j) => {
                proof {
                    assert(s@.subrange(j as int, j + 1)[0] == '\n');
                    assert(s@[j as int] == '\n');
                    assert forall|k: int| 0 <= k < j - pos implies t[k] != '\n' by {
                        assert(!occurs_at(s@, nl@, pos + k));
                        if t[k] == '\n' {
                            assert(s@.subrange(pos + k, pos + k + 1) =~= nl@);
                        }
                    }
                    lemma_lines_step(t, j - pos);
                    assert(t.take(j - pos) =~= s@.subrange(pos as int, j as int));
                    assert(t.skip(j - pos + 1) =~= s@.skip(j + 1));
                }
                let mut piece = slice_chars(s, pos, j);
                if piece.len() > 0 && piece[piece.len() - 1] == '\r' {
                    piece.pop();
                }
                assert(piece@ == strip_cr(s@.subrange(pos as int, j as int)));
                let ghost old_r = r@;
                r.push(piece);
                proof {
                    assert(views(r@) =~= views(old_r) + seq![piece@]);
                }
                pos = j + 1;
            },
            None => {
                proof {
                    assert forall|k: int| 0 <= k < t.len() implies t[k] != '\n' by {
                        assert(!occurs_at(s@, nl@, pos + k));
                        if t[k] == '\n' {
                            assert(s@.subrange(pos + k, pos + k + 1) =~= nl@);
                        }
                    }
                    lemma_lines_last(t);
                }
                let piece = slice_chars(s, pos, s.len());
                assert(piece@ =~= t);
                let ghost old_r = r@;
                r.push(piece);
                proof {
                    assert(views(r@) =~= views(old_r) + seq![piece@]);
                    assert(s@.skip(s.len() as int) =~= Seq::<char>::empty());
                }
                pos = s.len();
            },
        }
    }
    proof {
        assert(s@.skip(pos as int) =~= Seq::<char>::empty());
        assert(views(r@) + lines(Seq::<char>::empty()) =~= views(r@));
    }
    r
}

// ---------------------------------------------------------------------------
// Joining
// ---------------------------------------------------------------------------

/// `[T]::join`: the parts with `sep` between consecutive ones.
pub open spec fn join(parts: Seq<Seq<char>>, sep: Seq<char>) -> Seq<char>
    decreases parts.len(),
{
    if parts.len() == 0 {
        seq![]
    } else if parts.len() == 1 {
        parts[0]
    } else {
        join(parts.drop_last(), sep) + sep + parts.last()
    }
}

/// Executable `join` over character vectors.
pub fn join_chars(parts: &Vec<Vec<char>>, sep: &Vec<char>) -> (r: Vec<char>)
    ensures
        r@ == join(views(parts@), sep@),
{
    let mut r: Vec<char> = Vec::new();
    let mut i: usize = 0;
    while i < parts.len()
        invariant
            i <= parts.len(),
            r@ == join(views(parts@).take(i as int), sep@),
        decreases parts.len() - i,
    {
        let ghost before = r@;
        if i > 0 {
            append_chars(&mut r, sep);
        }
        append_chars(&mut r, &parts[i]);
        proof {
            let ps = views(parts@).take(i + 1);
            assert(ps.drop_last() =~= views(parts@).take(i as int));
            if i == 0 {
                assert(r@ =~= ps[0]);
            } else {
                assert(r@ =~= before + sep@ + ps.last());
            }
        }
        i = i + 1;
    }
    assert(views(parts@).take(parts.len() as int) =~= views(parts@));
    r
}

/// Appends all of `t` to the character vector `r`.
pub fn append_chars(r: &mut Vec<char>, t: &Vec<char>)
    ensures
        final(r)@ == old(r)@ + t@,
{
    let mut i: usize = 0;
    while i < t.len()
        invariant
            i <= t.len(),
            r@ == old(r)@ + t@.take(i as int),
        decreases t.len() - i,
    {
        r.push(t[i]);
        i = i + 1;
        assert(r@ =~= old(r)@ + t@.take(i as int));
    }
    assert(t@.take(t.len() as int) =~= t@);
}

} // verus!

verus! {

// ---------------------------------------------------------------------------
// Splitting at a separator
// ---------------------------------------------------------------------------

/// The first position at or after `from` where `pat` occurs.
pub open spec fn occ_from(s: Seq<char>, pat: Seq<char>, from: int) -> Option<int>
    decreases s.len() + 1 - from,
{
    if from < 0 || from > s.len() {
        None
    } else if occurs_at(s, pat, from) {
        Some(from)
    } else {
        occ_from(s, pat, from + 1)
    }
}

/// `occ_from` agrees with any position that has no earlier occurrence.
pub proof fn lemma_occ_from_found(s: Seq<char>, pat: Seq<char>, from: int, i: int)
    requires
        0 <= from <= i,
        occurs_at(s, pat, i),
        forall|j: int| from <= j < i ==> !occurs_at(s, pat, j),
    ensures
        occ_from(s, pat, from) == Some(i),
    decreases i - from,
{
    if from < i {
        lemma_occ_from_found(s, pat, from + 1, i);
    }
}

/// `occ_from` is `None` when nothing occurs at or after `from`.
pub proof fn lemma_occ_from_none(s: Seq<char>, pat: Seq<char>, from: int)
    requires
        0 <= from,
        forall|j: int| from <= j ==> !occurs_at(s, pat, j),
    ensures
        occ_from(s, pat, from) is None,
    decreases s.len() + 1 - from,
{
    if from <= s.len() {
        lemma_occ_from_none(s, pat, from + 1);
    }
}

/// `occ_from` returns an occurrence at or after `from`, within the text.
pub proof fn lemma_occ_from_bounds(s: Seq<char>, pat: Seq<char>, from: int)
    ensures
        occ_from(s, pat, from) matches Some(i) ==> from <= i && occurs_at(s, pat, i),
    decreases s.len() + 1 - from,
{
    if 0 <= from <= s.len() && !occurs_at(s, pat, from) {
        lemma_occ_from_bounds(s, pat, from + 1);
    }
}

/// `str::splitn(n, sep)` on `s[from..]`: at most `n` pieces, cut at the first
/// occurrences of `sep` from left to right, the last piece holding the rest.
pub open spec fn splitn_from(s: Seq<char>, sep: Seq<char>, from: int, n: nat) -> Seq<Seq<char>>
    decreases s.len() + 1 - from,
{
    if n == 0 {
        seq![]
    } else if from < 0 || from > s.len() || sep.len() == 0 || n == 1 {
        seq![s.subrange(from, s.len() as int)]
    } else {
        match occ_from(s, sep, from) {
            Some(i) => if from <= i {
                proof {
                    lemma_occ_from_bounds(s, sep, from);
                }
                seq![s.subrange(from, i)] + splitn_from(s, sep, i + sep.len(), (n - 1) as nat)
            } else {
                seq![]
            },
            None => seq![s.subrange(from, s.len() as int)],
        }
    }
}

/// `str::split(sep)` (with a non-empty separator): the pieces between
/// consecutive occurrences, taken from left to right.
pub open spec fn split(s: Seq<char>, sep: Seq<char>) -> Seq<Seq<char>> {
    splitn_from(s, sep, 0, (s.len() + 2) as nat)
}

/// Executable `splitn`: at most `n` pieces of `s` cut at `sep`.
pub fn splitn_chars(s: &Vec<char>, sep: &Vec<char>, n: usize) -> (r: Vec<Vec<char>>)
    requires
        sep.len() > 0,
    ensures
        views(r@) == splitn_from(s@, sep@, 0, n as nat),
        n > 0 ==> r.len() > 0,
        r.len() <= n,
{
    let mut r: Vec<Vec<char>> = Vec::new();
    if n == 0 {
        assert(views(r@) =~= Seq::<Seq<char>>::empty());
        return r;
    }
    let mut from: usize = 0;
    let mut left: usize = n;
    while left > 1
        invariant
            sep.len() > 0,
            from <= s.len(),
            1 <= left <= n,
            r.len() + left == n,
            splitn_from(s@, sep@, 0, n as nat) == views(r@) + splitn_from(
                s@,
                sep@,
                from as int,
                left as nat,
            ),
        decreases left,
    {
        match find_from(s, sep, from) {
            Some(i) => {
                proof {
                    lemma_occ_from_found(s@, sep@, from as int, i as int);
                }
                let piece = slice_chars(s, from, i);
                let ghost old_r = r@;
                r.push(piece);
                proof {
                    assert(views(r@) =~= views(old_r) + seq![piece@]);
                    assert(views(old_r) + (seq![piece@] + splitn_from(
                        s@,
                        sep@,
                        i + sep.len(),
                        (left - 1) as nat,
                    )) =~= views(r@) + splitn_from(s@, sep@, i + sep.len(), (left - 1) as nat));
                }
                from = i + sep.len();
                left = left - 1;
            },
            None => {
                proof {
                    lemma_occ_from_none(s@, sep@, from as int);
                }
                let piece = slice_chars(s, from, s.len());
                let ghost old_r = r@;
                r.push(piece);
                proof {
                    assert(views(r@) =~= views(old_r) + seq![piece@]);
                }
                return r;
            },
        }
    }
    let piece = slice_chars(s, from, s.len());
    let ghost old_r = r@;
    r.push(piece);
    assert(views(r@) =~= views(old_r) + seq![piece@]);
    r
}

/// Executable `split` with a non-empty separator.
pub fn split_chars(s: &Vec<char>, sep: &Vec<char>) -> (r: Vec<Vec<char>>)
    requires
        sep.len() > 0,
        s.len() + 2 <= usize::MAX,
    ensures
        views(r@) == split(s@, sep@),
        r.len() > 0,
{
    splitn_chars(s, sep, s.len() + 2)
}

// ---------------------------------------------------------------------------
// UTF-8 byte lengths
// ---------------------------------------------------------------------------

/// Number of bytes in the UTF-8 encoding of `c` (`char::len_utf8`).
pub open spec fn char_width(c: char) -> int {
    let u = c as u32;
    if u < 0x80 {
        1
    } else if u < 0x800 {
        2
    } else if u < 0x10000 {
        3
    } else {
        4
    }
}

/// Number of bytes in the UTF-8 encoding of the text (`str::len`).
pub open spec fn byte_len(s: Seq<char>) -> int
    decreases s.len(),
{
    if s.len() == 0 {
        0
    } else {
        byte_len(s.drop_last()) + char_width(s.last())
    }
}

pub fn char_width_exec(c: char) -> (w: usize)
    ensures
        w == char_width(c),
{
    let u = c as u32;
    if u < 0x80 {
        1
    } else if u < 0x800 {
        2
    } else if u < 0x10000 {
        3
    } else {
        4
    }
}

/// `byte_len` grows with the prefix.
pub proof fn lemma_byte_len_take(s: Seq<char>, j: int)
    requires
        0 <= j < s.len(),
    ensures
        byte_len(s.take(j + 1)) == byte_len(s.take(j)) + char_width(s[j]),
{
    assert(s.take(j + 1).drop_last() =~= s.take(j));
}

/// `byte_len` is additive.
pub proof fn lemma_byte_len_concat(a: Seq<char>, b: Seq<char>)
    ensures
        byte_len(a + b) == byte_len(a) + byte_len(b),
    decreases b.len(),
{
    if b.len() == 0 {
        assert(a + b =~= a);
    } else {
        assert((a + b).drop_last() =~= a + b.drop_last());
        lemma_byte_len_concat(a, b.drop_last());
    }
}

/// `byte_len` is non-negative and at least the number of characters.
pub proof fn lemma_byte_len_bounds(s: Seq<char>)
    ensures
        s.len() <= byte_len(s) <= 4 * s.len(),
    decreases s.len(),
{
    if s.len() > 0 {
        lemma_byte_len_bounds(s.drop_last());
    }
}

/// `byte_len` of a prefix is at most that of the whole text.
pub proof fn lemma_byte_len_prefix_mono(s: Seq<char>, i: int, j: int)
    requires
        0 <= i <= j <= s.len(),
    ensures
        byte_len(s.take(i)) <= byte_len(s.take(j)),
    decreases j - i,
{
    if i < j {
        lemma_byte_len_take(s, j - 1);
        lemma_byte_len_prefix_mono(s, i, j - 1);
    }
}

/// `byte_len` is the length of the UTF-8 encoding that `str::len` reports.
pub proof fn lemma_byte_len_is_encoded_len(s: Seq<char>)
    ensures
        byte_len(s) == vstd::utf8::encode_utf8(s).len(),
    decreases s.len(),
{
    if s.len() > 0 {
        lemma_byte_len_is_encoded_len(s.drop_first());
        assert(s =~= seq![s[0]] + s.drop_first());
        lemma_byte_len_concat(seq![s[0]], s.drop_first());
        assert(seq![s[0]].drop_last() =~= Seq::<char>::empty());
        assert(seq![s[0]].last() == s[0]);
        assert(byte_len(Seq::<char>::empty()) == 0);
        assert(byte_len(seq![s[0]].drop_last()) == 0);
        assert(byte_len(seq![s[0]]) == char_width(s[0]));
        let u = s[0] as u32;
        vstd::utf8::char_is_scalar(s[0]);
        assert(vstd::utf8::encode_scalar(u).len() == char_width(s[0]));
        assert(vstd::utf8::encode_utf8(s) == vstd::utf8::encode_scalar(u) + vstd::utf8::encode_utf8(
            s.drop_first(),
        ));
    }
}

/// The number of characters whose UTF-8 encoding ends at or before byte `limit`
/// (the longest prefix of at most `limit` bytes), and whether the text is longer.
pub fn prefix_within_bytes(s: &Vec<char>, limit: usize) -> (r: (usize, bool, usize))
    ensures
        r.0 <= s.len(),
        r.2 == byte_len(s@.take(r.0 as int)),
        !r.1 ==> r.0 == s.len(),
        byte_len(s@.take(r.0 as int)) <= limit,
        r.0 < s.len() ==> byte_len(s@.take(r.0 + 1)) > limit,
        r.1 == (byte_len(s@) > limit),
{
    let mut k: usize = 0;
    let mut used: usize = 0;
    assert(s@.take(0) =~= Seq::<char>::empty());
    while k < s.len()
        invariant
            k <= s.len(),
            used == byte_len(s@.take(k as int)),
            used <= limit,
        decreases s.len() - k,
    {
        let w = char_width_exec(s[k]);
        proof {
            lemma_byte_len_take(s@, k as int);
        }
        if w > limit - used {
            proof {
                lemma_byte_len_prefix_mono(s@, k + 1, s.len() as int);
                assert(s@.take(s.len() as int) =~= s@);
            }
            return (k, true, used);
        }
        used = used + w;
        k = k + 1;
    }
    assert(s@.take(s.len() as int) =~= s@);
    (k, false, used)
}

} // verus!

verus! {

/// Whether two character vectors are equal.
pub fn eq_chars(a: &Vec<char>, b: &Vec<char>) -> (r: bool)
    ensures
        r == (a@ == b@),
{
    if a.len() != b.len() {
        return false;
    }
    let r = starts_with_chars(a, b);
    assert(a@.take(b.len() as int) =~= a@);
    r
}

/// Whether two strings hold the same text.
pub fn eq_str(a: &str, b: &str) -> (r: bool)
    ensures
        r == (a@ == b@),
{
    let x = to_chars(a);
    let y = to_chars(b);
    eq_chars(&x, &y)
}

} // verus!

verus! {

// ---------------------------------------------------------------------------
// Replacing and the last piece of a split
// ---------------------------------------------------------------------------

/// `str::replace(pat, to)` for a non-empty pattern: occurrences are found
/// from left to right, do not overlap, and each is replaced by `to`.
pub open spec fn replace_all(s: Seq<char>, pat: Seq<char>, to: Seq<char>) -> Seq<char>
    decreases s.len(),
{
    if s.len() == 0 || pat.len() == 0 {
        s
    } else if starts_with(s, pat) {
        to + replace_all(s.skip(pat.len() as int), pat, to)
    } else {
        seq![s[0]] + replace_all(s.skip(1), pat, to)
    }
}

/// Executable `replace_all`.
pub fn replace_chars(s: &Vec<char>, pat: &Vec<char>, to: &Vec<char>) -> (r: Vec<char>)
    requires
        pat.len() > 0,
    ensures
        r@ == replace_all(s@, pat@, to@),
{
    let mut r: Vec<char> = Vec::new();
    let mut i: usize = 0;
    assert(s@.skip(0) =~= s@);
    while i < s.len()
        invariant
            i <= s.len(),
            pat.len() > 0,
            r@ + replace_all(s@.skip(i as int), pat@, to@) == replace_all(s@, pat@, to@),
        decreases s.len() - i,
    {
        let ghost rest = s@.skip(i as int);
        if occurs_at_chars(s, pat, i) {
            proof {
                assert(rest.take(pat.len() as int) =~= s@.subrange(i as int, i + pat.len()));
                assert(rest.skip(pat.len() as int) =~= s@.skip(i + pat.len()));
            }
            append_chars(&mut r, to);
            i = i + pat.len();
        } else {
            proof {
                if starts_with(rest, pat@) {
                    assert(rest.take(pat.len() as int) =~= s@.subrange(i as int, i + pat.len()));
                }
                assert(rest.skip(1) =~= s@.skip(i + 1));
                assert(rest[0] == s@[i as int]);
            }
            r.push(s[i]);
            i = i + 1;
        }
        assert(r@ + replace_all(s@.skip(i as int), pat@, to@) == replace_all(s@, pat@, to@));
    }
    assert(s@.skip(i as int) =~= Seq::<char>::empty());
    assert(r@ + Seq::<char>::empty() =~= r@);
    r
}

/// The piece after the last separator met when `s[from..]` is cut at
/// `sep` from left to right: `s[from..].split(sep).last()`.
pub open spec fn last_piece_from(s: Seq<char>, sep: Seq<char>, from: int) -> Seq<char>
    decreases s.len() + 1 - from,
{
    if from < 0 || from > s.len() || sep.len() == 0 {
        s.subrange(from, s.len() as int)
    } else {
        match occ_from(s, sep, from) {
            Some(i) => if from <= i {
                proof {
                    lemma_occ_from_bounds(s, sep, from);
                }
                last_piece_from(s, sep, i + sep.len())
            } else {
                s.subrange(from, s.len() as int)
            },
            None => s.subrange(from, s.len() as int),
        }
    }
}

/// `last_piece_from` is the last of the `splitn_from` pieces once `n` is
/// larger than the number of separators that can fit.
pub proof fn lemma_last_piece_split(s: Seq<char>, sep: Seq<char>, from: int, n: nat)
    requires
        0 <= from <= s.len(),
        sep.len() > 0,
        n > s.len() - from + 1,
    ensures
        splitn_from(s, sep, from, n).len() > 0,
        splitn_from(s, sep, from, n).last() == last_piece_from(s, sep, from),
    decreases s.len() + 1 - from,
{
    lemma_occ_from_bounds(s, sep, from);
    match occ_from(s, sep, from) {
        Some(i) => {
            lemma_last_piece_split(s, sep, i + sep.len(), (n - 1) as nat);
            let tail = splitn_from(s, sep, i + sep.len(), (n - 1) as nat);
            assert((seq![s.subrange(from, i)] + tail).last() == tail.last());
        },
        None => {},
    }
}

/// The last piece of `s.split(sep)`.
pub proof fn lemma_last_piece(s: Seq<char>, sep: Seq<char>)
    requires
        sep.len() > 0,
    ensures
        split(s, sep).len() > 0,
        split(s, sep).last() == last_piece_from(s, sep, 0),
{
    lemma_last_piece_split(s, sep, 0, (s.len() + 2) as nat);
}

/// Executable `last_piece_from(s, sep, 0)`.
pub fn last_piece(s: &Vec<char>, sep: &Vec<char>) -> (r: Vec<char>)
    requires
        sep.len() > 0,
    ensures
        r@ == last_piece_from(s@, sep@, 0),
{
    let mut from: usize = 0;
    loop
        invariant
            from <= s.len(),
            sep.len() > 0,
            last_piece_from(s@, sep@, from as int) == last_piece_from(s@, sep@, 0),
        ensures
            from <= s.len(),
            last_piece_from(s@, sep@, 0) == s@.subrange(from as int, s.len() as int),
        decreases s.len() - from,
    {
        match find_from(s, sep, from) {
            Some(i) => {
                proof {
                    lemma_occ_from_found(s@, sep@, from as int, i as int);
                }
                from = i + sep.len();
            },
            None => {
                proof {
                    lemma_occ_from_none(s@, sep@, from as int);
                }
                break;
            },
        }
    }
    slice_chars(s, from, s.len())
}

} // verus!

verus! {

/// `splitn` with two limits agrees on every piece before the smaller
/// limit's last one: those pieces are cut at the same separators.
pub proof fn lemma_splitn_prefix(s: Seq<char>, sep: Seq<char>, from: int, n: nat, m: nat, k: int)
    requires
        1 <= n <= m,
        0 <= k < n - 1,
    ensures
        (k < splitn_from(s, sep, from, n).len()) == (k < splitn_from(s, sep, from, m).len()),
        k < splitn_from(s, sep, from, n).len() ==> splitn_from(s, sep, from, n)[k]
            == splitn_from(s, sep, from, m)[k],
    decreases s.len() + 1 - from,
{
    if from < 0 || from > s.len() || sep.len() == 0 {
    } else {
        lemma_occ_from_bounds(s, sep, from);
        match occ_from(s, sep, from) {
            Some(i) => {
                if k > 0 {
                    lemma_splitn_prefix(s, sep, i + sep.len(), (n - 1) as nat, (m - 1) as nat, k - 1);
                }
            },
            None => {},
        }
    }
}

/// The first text of a sequence that contains `pat`.
pub open spec fn first_containing(ts: Seq<Seq<char>>, pat: Seq<char>) -> Option<Seq<char>>
    decreases ts.len(),
{
    if ts.len() == 0 {
        None
    } else if contains(ts[0], pat) {
        Some(ts[0])
    } else {
        first_containing(ts.drop_first(), pat)
    }
}

/// What `first_containing` finds contains the pattern.
pub proof fn lemma_first_containing(ts: Seq<Seq<char>>, pat: Seq<char>)
    ensures
        first_containing(ts, pat) matches Some(l) ==> contains(l, pat),
    decreases ts.len(),
{
    if ts.len() > 0 && !contains(ts[0], pat) {
        lemma_first_containing(ts.drop_first(), pat);
    }
}

/// The first line of a text that contains `pat`
/// (`s.lines().find(|l| l.contains(pat))`).
pub fn first_line_containing(s: &Vec<char>, pat: &Vec<char>) -> (r: Option<Vec<char>>)
    ensures
        match r {
            Some(l) => first_containing(lines(s@), pat@) == Some(l@),
            None => first_containing(lines(s@), pat@) is None,
        },
{
    let ls = split_lines(s);
    let mut i: usize = 0;
    assert(views(ls@).skip(0) =~= views(ls@));
    while i < ls.len()
        invariant
            i <= ls.len(),
            views(ls@) == lines(s@),
            first_containing(views(ls@).skip(i as int), pat@) == first_containing(lines(s@), pat@),
        decreases ls.len() - i,
    {
        let ghost rest = views(ls@).skip(i as int);
        assert(rest[0] == ls@[i as int]@);
        assert(rest.drop_first() =~= views(ls@).skip(i + 1));
        if contains_chars(&ls[i], pat) {
            let l = slice_chars(&ls[i], 0, ls[i].len());
            assert(l@ =~= ls@[i as int]@);
            return Some(l);
        }
        i = i + 1;
    }
    assert(views(ls@).skip(i as int) =~= Seq::<Seq<char>>::empty());
    None
}

} // verus!
