//! Insight records and the text they are indexed and searched by.
use vstd::prelude::*;
use crate::text::{
    from_chars, is_whitespace, is_ws, join, join_chars, push_str, str_views, to_chars, views,
};

verus! {

/// A structured insight extracted from one or more commits.
#[derive(Debug, Clone)]
pub struct Insight {
    pub commit_sha: String,
    pub commit_date: String,
    pub category: String,
    pub title: String,
    pub body: String,
    pub files: Vec<String>,
    pub tags: String,
    pub source_type: String,
    pub pr_number: Option<u64>,
}

/// What an insight holds, as text.
pub struct InsightView {
    pub commit_sha: Seq<char>,
    pub commit_date: Seq<char>,
    pub category: Seq<char>,
    pub title: Seq<char>,
    pub body: Seq<char>,
    pub files: Seq<Seq<char>>,
    pub tags: Seq<char>,
    pub source_type: Seq<char>,
    pub pr_number: Option<u64>,
}

impl View for Insight {
    type V = InsightView;

    open spec fn view(&self) -> InsightView {
        InsightView {
            commit_sha: self.commit_sha@,
            commit_date: self.commit_date@,
            category: self.category@,
            title: self.title@,
            body: self.body@,
            files: str_views(self.files@),
            tags: self.tags@,
            source_type: self.source_type@,
            pr_number: self.pr_number,
        }
    }
}

/// The text an insight is embedded by: title, body and tags, separated by spaces.
pub open spec fn embedding_text_of(i: InsightView) -> Seq<char> {
    i.title + seq![' '] + i.body + seq![' '] + i.tags
}

impl Insight {
    /// Build the text used for embedding: title + body + tags.
    pub fn embedding_text(&self) -> (r: String)
        ensures
            r@ == embedding_text_of(self@),
    {
        let mut r = String::new();
        push_str(&mut r, self.title.as_str());
        push_str(&mut r, " ");
        push_str(&mut r, self.body.as_str());
        push_str(&mut r, " ");
        push_str(&mut r, self.tags.as_str());
        proof {
            reveal_strlit(" ");
        }
        assert(r@ =~= embedding_text_of(self@));
        r
    }
}

/// A stored insight as the index returns it: its row id and its fields.
#[derive(Debug, Clone)]
pub struct StoredInsight {
    pub id: i64,
    pub commit_sha: String,
    pub commit_date: String,
    pub category: String,
    pub title: String,
    pub body: String,
    pub files: Vec<String>,
    pub tags: String,
    pub source_type: String,
    pub pr_number: Option<u64>,
}

// ---------------------------------------------------------------------------
// Full-text query
// ---------------------------------------------------------------------------

/// Scanning state for `split_whitespace`: the words so far and the word being read.
pub open spec fn words_state(s: Seq<char>) -> (Seq<Seq<char>>, Seq<char>)
    decreases s.len(),
{
    if s.len() == 0 {
        (seq![], seq![])
    } else {
        let (ws, cur) = words_state(s.drop_last());
        if is_ws(s.last()) {
            if cur.len() > 0 {
                (ws.push(cur), seq![])
            } else {
                (ws, cur)
            }
        } else {
            (ws, cur.push(s.last()))
        }
    }
}

/// `str::split_whitespace`: the maximal runs of non-whitespace characters.
pub open spec fn words(s: Seq<char>) -> Seq<Seq<char>> {
    let (ws, cur) = words_state(s);
    if cur.len() > 0 {
        ws.push(cur)
    } else {
        ws
    }
}

/// A word without its double quotes.
pub open spec fn without_quotes(w: Seq<char>) -> Seq<char>
    decreases w.len(),
{
    if w.len() == 0 {
        seq![]
    } else if w.last() == '"' {
        without_quotes(w.drop_last())
    } else {
        without_quotes(w.drop_last()).push(w.last())
    }
}

/// Each word stripped of double quotes and wrapped in them; words that were
/// nothing but quotes are dropped.
pub open spec fn fts_terms(ws: Seq<Seq<char>>) -> Seq<Seq<char>>
    decreases ws.len(),
{
    if ws.len() == 0 {
        seq![]
    } else if without_quotes(ws.last()).len() == 0 {
        fts_terms(ws.drop_last())
    } else {
        fts_terms(ws.drop_last()).push(seq!['"'] + without_quotes(ws.last()) + seq!['"'])
    }
}

/// The FTS5 query for a user query: every word quoted as a phrase, so that
/// FTS5 operators and punctuation in it are taken literally.
pub open spec fn fts_query(query: Seq<char>) -> Seq<char> {
    join(fts_terms(words(query)), seq![' '])
}

fn split_whitespace(s: &Vec<char>) -> (r: Vec<Vec<char>>)
    ensures
        views(r@) == words(s@),
{
    let mut out: Vec<Vec<char>> = Vec::new();
    let mut cur: Vec<char> = Vec::new();
    let mut i: usize = 0;
    assert(s@.take(0) =~= Seq::<char>::empty());
    while i < s.len()
        invariant
            i <= s.len(),
            words_state(s@.take(i as int)) == (views(out@), cur@),
        decreases s.len() - i,
    {
        assert(s@.take(i + 1).drop_last() =~= s@.take(i as int));
        assert(s@.take(i + 1).last() == s@[i as int]);
        if is_whitespace(s[i]) {
            if cur.len() > 0 {
                let ghost prev = out@;
                let word = cur;
                out.push(word);
                cur = Vec::new();
                assert(views(out@) =~= views(prev).push(word@));
                assert(cur@ =~= Seq::<char>::empty());
            }
        } else {
            cur.push(s[i]);
        }
        i = i + 1;
    }
    assert(s@.take(s.len() as int) =~= s@);
    if cur.len() > 0 {
        let ghost prev = out@;
        let word = cur;
        out.push(word);
        assert(views(out@) =~= views(prev).push(word@));
    }
    out
}

fn strip_quotes(w: &Vec<char>) -> (r: Vec<char>)
    ensures
        r@ == without_quotes(w@),
{
    let mut r: Vec<char> = Vec::new();
    let mut i: usize = 0;
    assert(w@.take(0) =~= Seq::<char>::empty());
    while i < w.len()
        invariant
            i <= w.len(),
            r@ == without_quotes(w@.take(i as int)),
        decreases w.len() - i,
    {
        assert(w@.take(i + 1).drop_last() =~= w@.take(i as int));
        assert(w@.take(i + 1).last() == w@[i as int]);
        if w[i] != '"' {
            r.push(w[i]);
        }
        i = i + 1;
    }
    assert(w@.take(w.len() as int) =~= w@);
    r
}

/// Quote every term of a user query for FTS5.
pub fn sanitize_fts_query(query: &str) -> (r: String)
    ensures
        r@ == fts_query(query@),
{
    let q = to_chars(query);
    let ws = split_whitespace(&q);
    let mut terms: Vec<Vec<char>> = Vec::new();
    let mut i: usize = 0;
    assert(views(ws@).take(0) =~= Seq::<Seq<char>>::empty());
    assert(views(terms@) =~= fts_terms(views(ws@).take(0)));
    while i < ws.len()
        invariant
            i <= ws.len(),
            views(ws@) == words(query@),
            views(terms@) == fts_terms(views(ws@).take(i as int)),
        decreases ws.len() - i,
    {
        assert(views(ws@).take(i + 1).drop_last() =~= views(ws@).take(i as int));
        assert(views(ws@).take(i + 1).last() == ws@[i as int]@);
        let cleaned = strip_quotes(&ws[i]);
        if cleaned.len() > 0 {
            let mut t: Vec<char> = Vec::new();
            t.push('"');
            crate::text::append_chars(&mut t, &cleaned);
            t.push('"');
            assert(t@ =~= seq!['"'] + cleaned@ + seq!['"']);
            let ghost prev = terms@;
            terms.push(t);
            assert(views(terms@) =~= views(prev).push(t@));
        }
        i = i + 1;
    }
    assert(views(ws@).take(ws.len() as int) =~= views(ws@));
    let sep = vec![' '];
    assert(sep@ =~= seq![' ']);
    let joined = join_chars(&terms, &sep);
    from_chars(&joined)
}

/// The files stored with an insight, decoded from their JSON column: the
/// strings of the JSON array, or none when the text is not such an array.
pub fn decode_files(text: &str) -> (r: Vec<String>)
    ensures
        str_views(r@) == match crate::claude::json_string_array(text@) {
            Some(v) => v,
            None => Seq::<Seq<char>>::empty(),
        },
{
    match crate::claude::parse_string_array(text) {
        Some(v) => v,
        None => {
            let empty: Vec<String> = Vec::new();
            assert(str_views(empty@) =~= Seq::<Seq<char>>::empty());
            empty
        },
    }
}

// ---------------------------------------------------------------------------
// What the full-text query holds
// ---------------------------------------------------------------------------

/// A word as a query writes it: not empty, and without whitespace.
pub open spec fn plain_word(w: Seq<char>) -> bool {
    w.len() > 0 && forall|k: int| 0 <= k < w.len() ==> !is_ws(#[trigger] w[k])
}

/// Reading on through characters that are not whitespace extends the word
/// being read.
proof fn lemma_words_state_run(x: Seq<char>, w: Seq<char>)
    requires
        forall|k: int| 0 <= k < w.len() ==> !is_ws(#[trigger] w[k]),
    ensures
        words_state(x + w) == (words_state(x).0, words_state(x).1 + w),
    decreases w.len(),
{
    if w.len() == 0 {
        assert(x + w =~= x);
        assert(words_state(x).1 + w =~= words_state(x).1);
    } else {
        assert((x + w).drop_last() =~= x + w.drop_last());
        assert((x + w).last() == w.last());
        assert(!is_ws(w[w.len() - 1]));
        lemma_words_state_run(x, w.drop_last());
        assert(words_state(x).1 + w.drop_last() + seq![w.last()] =~= words_state(x).1 + w);
        assert((words_state(x).1 + w.drop_last()).push(w.last()) =~= words_state(x).1 + w);
    }
}

/// Plain words joined by single spaces are read back as those words.
proof fn lemma_words_of_join(ws: Seq<Seq<char>>)
    requires
        forall|i: int| 0 <= i < ws.len() ==> plain_word(#[trigger] ws[i]),
    ensures
        words(join(ws, seq![' '])) == ws,
        ws.len() > 0 ==> words_state(join(ws, seq![' '])) == (ws.drop_last(), ws.last()),
    decreases ws.len(),
{
    if ws.len() == 0 {
        assert(join(ws, seq![' ']) =~= Seq::<char>::empty());
        assert(words(Seq::<char>::empty()) =~= ws);
    } else if ws.len() == 1 {
        assert(join(ws, seq![' ']) == ws[0]);
        assert(plain_word(ws[0]));
        lemma_words_state_run(Seq::<char>::empty(), ws[0]);
        assert(Seq::<char>::empty() + ws[0] =~= ws[0]);
        assert(words_state(Seq::<char>::empty()) == (Seq::<Seq<char>>::empty(), Seq::<char>::empty()));
        assert(Seq::<char>::empty() + ws[0] =~= ws[0]);
        assert(ws.drop_last() =~= Seq::<Seq<char>>::empty());
        assert(words(ws[0]) =~= seq![ws[0]]);
        assert(seq![ws[0]] =~= ws);
    } else {
        let init = ws.drop_last();
        assert forall|i: int| 0 <= i < init.len() implies plain_word(#[trigger] init[i]) by {
            assert(init[i] == ws[i]);
        }
        lemma_words_of_join(init);
        let a = join(init, seq![' ']);
        let last = ws.last();
        assert(plain_word(ws[ws.len() - 1]));
        assert(join(ws, seq![' ']) == a + seq![' '] + last);
        // The space ends the last word of `init`.
        let sp = a.push(' ');
        assert(sp.drop_last() =~= a);
        assert(is_ws(' '));
        assert(plain_word(init[init.len() - 1]));
        assert(init.drop_last().push(init.last()) =~= init);
        assert(words_state(sp) == (init, Seq::<char>::empty()));
        assert(a + seq![' '] =~= sp);
        lemma_words_state_run(sp, last);
        assert(Seq::<char>::empty() + last =~= last);
        assert(init.push(last) =~= ws);
    }
}

/// A word without its quotes is the word with every `"` filtered out.
proof fn lemma_without_quotes_filter(w: Seq<char>)
    ensures
        without_quotes(w) == w.filter(|c: char| c != '"'),
    decreases w.len(),
{
    reveal(Seq::filter);
    if w.len() > 0 {
        lemma_without_quotes_filter(w.drop_last());
    }
}

/// The word holds some character other than `"`.
pub open spec fn has_unquoted(w: Seq<char>) -> bool {
    exists|k: int| 0 <= k < w.len() && #[trigger] w[k] != '"'
}

/// The quoted form of a word: its characters other than `"`, in double quotes.
pub open spec fn quoted_word(w: Seq<char>) -> Seq<char> {
    seq!['"'] + w.filter(|c: char| c != '"') + seq!['"']
}

proof fn lemma_terms_of_words(ws: Seq<Seq<char>>)
    requires
        forall|i: int| 0 <= i < ws.len() ==> has_unquoted(#[trigger] ws[i]),
    ensures
        fts_terms(ws) == ws.map_values(|w: Seq<char>| quoted_word(w)),
    decreases ws.len(),
{
    if ws.len() > 0 {
        let init = ws.drop_last();
        assert forall|i: int| 0 <= i < init.len() implies has_unquoted(#[trigger] init[i]) by {
            assert(init[i] == ws[i]);
        }
        lemma_terms_of_words(init);
        let w = ws.last();
        assert(has_unquoted(ws[ws.len() - 1]));
        let k = choose|k: int| 0 <= k < w.len() && #[trigger] w[k] != '"';
        lemma_without_quotes_filter(w);
        w.filter_lemma(|c: char| c != '"');
        assert(w.filter(|c: char| c != '"').contains(w[k]));
        assert(ws.map_values(|w: Seq<char>| quoted_word(w)).drop_last() =~= init.map_values(
            |w: Seq<char>| quoted_word(w),
        ));
        assert(ws.map_values(|w: Seq<char>| quoted_word(w)) =~= init.map_values(
            |w: Seq<char>| quoted_word(w),
        ).push(quoted_word(w)));
    }
}

/// Law: the full-text query quotes every word of the user's query, in
/// order, and drops none: for words written without whitespace and joined by
/// single spaces, each holding some character other than `"`, the query is
/// each word with its `"` removed and wrapped in double quotes, joined by
/// single spaces. A query of seven plain words gives seven quoted terms.
pub proof fn law_fts_quotes_every_word(ws: Seq<Seq<char>>)
    requires
        forall|i: int| 0 <= i < ws.len() ==> plain_word(#[trigger] ws[i]),
        forall|i: int| 0 <= i < ws.len() ==> has_unquoted(#[trigger] ws[i]),
    ensures
        fts_query(join(ws, seq![' '])) == join(
            ws.map_values(|w: Seq<char>| quoted_word(w)),
            seq![' '],
        ),
{
    lemma_words_of_join(ws);
    lemma_terms_of_words(ws);
}

} // verus!
