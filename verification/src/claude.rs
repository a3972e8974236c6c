//! Locating the JSON array in a model's answer. The answer may be raw JSON,
//! JSON inside a markdown fence, or JSON embedded in prose; the caller parses
//! the candidates in the order given here.
use vstd::prelude::*;
use crate::text::{find_from, from_chars, occurs_at, occ_from, slice_chars, to_chars, lemma_occ_from_found, lemma_occ_from_none};

verus! {

/// The fence openings tried, in order: "```json\n", "```json\r\n", "```\n", "```\r\n".
pub open spec fn fence_markers() -> Seq<Seq<char>> {
    seq![
        seq!['`', '`', '`', 'j', 's', 'o', 'n', '\n'],
        seq!['`', '`', '`', 'j', 's', 'o', 'n', '\r', '\n'],
        seq!['`', '`', '`', '\n'],
        seq!['`', '`', '`', '\r', '\n'],
    ]
}

/// The closing fence.
pub open spec fn fence_close() -> Seq<char> {
    seq!['`', '`', '`']
}

/// The text inside the first fence opened by one of `markers` (tried in
/// order) that is closed somewhere after it.
pub open spec fn fenced_with(text: Seq<char>, markers: Seq<Seq<char>>) -> Option<Seq<char>>
    decreases markers.len(),
{
    if markers.len() == 0 {
        None
    } else {
        match occ_from(text, markers[0], 0) {
            Some(start) => {
                let body_start = start + markers[0].len();
                match occ_from(text, fence_close(), body_start) {
                    Some(end) => Some(text.subrange(body_start, end)),
                    None => fenced_with(text, markers.drop_first()),
                }
            },
            None => fenced_with(text, markers.drop_first()),
        }
    }
}

/// The contents of the first markdown code fence in the text.
pub open spec fn fenced_json(text: Seq<char>) -> Option<Seq<char>> {
    fenced_with(text, fence_markers())
}

fn markers() -> (r: Vec<Vec<char>>)
    ensures
        r@.len() == 4,
        forall|i: int| 0 <= i < 4 ==> (#[trigger] r@[i])@ == fence_markers()[i],
{
    let r = vec![
        vec!['`', '`', '`', 'j', 's', 'o', 'n', '\n'],
        vec!['`', '`', '`', 'j', 's', 'o', 'n', '\r', '\n'],
        vec!['`', '`', '`', '\n'],
        vec!['`', '`', '`', '\r', '\n'],
    ];
    assert(r@[0]@ =~= fence_markers()[0]);
    assert(r@[1]@ =~= fence_markers()[1]);
    assert(r@[2]@ =~= fence_markers()[2]);
    assert(r@[3]@ =~= fence_markers()[3]);
    r
}

/// Extract the JSON inside the first markdown fence, if any.
pub fn extract_json_from_fences(text: &str) -> (r: Option<String>)
    ensures
        match r {
            Some(s) => fenced_json(text@) == Some(s@),
            None => fenced_json(text@) is None,
        },
{
    let t = to_chars(text);
    let ms = markers();
    let close = vec!['`', '`', '`'];
    assert(close@ =~= fence_close());
    let mut i: usize = 0;
    assert(fence_markers().skip(0) =~= fence_markers());
    while i < 4
        invariant
            i <= 4,
            t@ == text@,
            ms@.len() == 4,
            close@ == fence_close(),
            forall|j: int| 0 <= j < 4 ==> (#[trigger] ms@[j])@ == fence_markers()[j],
            fenced_json(text@) == fenced_with(text@, fence_markers().skip(i as int)),
        decreases 4 - i,
    {
        let ghost rest = fence_markers().skip(i as int);
        assert(rest[0] == ms@[i as int]@);
        assert(rest.drop_first() =~= fence_markers().skip(i + 1));
        match find_from(&t, &ms[i], 0) {
            Some(start) => {
                proof {
                    lemma_occ_from_found(t@, ms@[i as int]@, 0, start as int);
                    assert(occurs_at(t@, ms[i as int]@, start as int));
                    assert(start + ms[i as int]@.len() <= t@.len());
                }
                let ml = ms[i].len();
                let tl = t.len();
                assert(start + ml <= tl);
                let body_start = start + ml;
                match find_from(&t, &close, body_start) {
                    Some(end) => {
                        proof {
                            lemma_occ_from_found(t@, close@, body_start as int, end as int);
                        }
                        let body = slice_chars(&t, body_start, end);
                        return Some(from_chars(&body));
                    },
                    None => {
                        proof {
                            lemma_occ_from_none(t@, close@, body_start as int);
                        }
                    },
                }
            },
            None => {
                proof {
                    lemma_occ_from_none(t@, ms@[i as int]@, 0);
                }
            },
        }
        i = i + 1;
    }
    assert(fence_markers().skip(4) =~= Seq::<Seq<char>>::empty());
    None
}

/// Where the outermost brackets of the text are: the text from the first `[`
/// to the last `]`.
#[derive(Debug, PartialEq, Eq)]
pub enum Brackets {
    /// No `[` or no `]` in the text.
    Missing,
    /// The text from the first `[` through the last `]`.
    Slice(String),
    /// The last `]` comes before the first `[`; slicing between them panics.
    Reversed,
}

/// Position of the first `c`, if any.
pub open spec fn first_pos(s: Seq<char>, c: char) -> Option<int> {
    if exists|i: int| 0 <= i < s.len() && s[i] == c {
        Some(choose|i: int| 0 <= i < s.len() && s[i] == c && forall|j: int| 0 <= j < i ==> s[j] != c)
    } else {
        None
    }
}

/// Position of the last `c`, if any.
pub open spec fn last_pos(s: Seq<char>, c: char) -> Option<int> {
    if exists|i: int| 0 <= i < s.len() && s[i] == c {
        Some(
            choose|i: int|
                0 <= i < s.len() && s[i] == c && forall|j: int| i < j < s.len() ==> s[j] != c,
        )
    } else {
        None
    }
}

/// The view of a bracket search.
pub open spec fn brackets_view(b: Brackets) -> Option<Option<Seq<char>>> {
    match b {
        Brackets::Missing => None,
        Brackets::Slice(s) => Some(Some(s@)),
        Brackets::Reversed => Some(None),
    }
}

/// The text from the first `[` to the last `]` inclusive.
pub open spec fn bracketed(s: Seq<char>) -> Option<Option<Seq<char>>> {
    match (first_pos(s, '['), last_pos(s, ']')) {
        (Some(a), Some(b)) => if a <= b {
            Some(Some(s.subrange(a, b + 1)))
        } else {
            Some(None)
        },
        _ => None,
    }
}

/// Find the span from the first `[` to the last `]`.
pub fn bracket_slice(text: &str) -> (r: Brackets)
    ensures
        brackets_view(r) == bracketed(text@),
{
    let s = to_chars(text);
    let mut a: usize = 0;
    while a < s.len() && s[a] != '['
        invariant
            a <= s.len(),
            forall|j: int| 0 <= j < a ==> s@[j] != '[',
        decreases s.len() - a,
    {
        a = a + 1;
    }
    if a == s.len() {
        return Brackets::Missing;
    }
    let mut b: usize = s.len();
    while b > 0 && s[b - 1] != ']'
        invariant
            b <= s.len(),
            forall|j: int| b <= j < s.len() ==> s@[j] != ']',
        decreases b,
    {
        b = b - 1;
    }
    if b == 0 {
        assert(!exists|i: int| 0 <= i < s@.len() && s@[i] == ']');
        return Brackets::Missing;
    }
    let last = b - 1;
    proof {
        let fa = choose|i: int|
            0 <= i < s@.len() && s@[i] == '[' && forall|j: int| 0 <= j < i ==> s@[j] != '[';
        assert(0 <= a < s@.len() && s@[a as int] == '[');
        if fa < a {
        } else if fa > a {
            assert(s@[a as int] != '[');
        }
        assert(first_pos(s@, '[') == Some(a as int));
        let lb = choose|i: int|
            0 <= i < s@.len() && s@[i] == ']' && forall|j: int| i < j < s@.len() ==> s@[j] != ']';
        assert(0 <= last < s@.len() && s@[last as int] == ']');
        if lb < last {
            assert(s@[last as int] != ']');
        } else if lb > last {
        }
        assert(last_pos(s@, ']') == Some(last as int));
    }
    if a <= last {
        let slice = slice_chars(&s, a, last + 1);
        Brackets::Slice(from_chars(&slice))
    } else {
        Brackets::Reversed
    }
}

// ---------------------------------------------------------------------------
// Reading a JSON array of strings
// ---------------------------------------------------------------------------

/// What `serde_json::from_str::<Vec<String>>` gives for a text: the strings
/// of the JSON array it holds, or `None` when it is not one.
pub uninterp spec fn json_string_array(text: Seq<char>) -> Option<Seq<Seq<char>>>;

/// Parses a text as a JSON array of strings.
/// Trusted: `serde_json::from_str::<Vec<String>>`, with its error dropped;
/// the result depends on the text alone and is named `json_string_array`.
#[verifier::external_body]
pub(crate) fn parse_string_array(text: &str) -> (r: Option<Vec<String>>)
    ensures
        crate::text::opt_list_view(r) == json_string_array(text@),
{
    serde_json::from_str::<Vec<String>>(text).ok()
}

/// What reading a JSON array of strings out of a model answer gives.
#[derive(Debug, PartialEq, Eq)]
pub enum StringArray {
    /// The array's strings.
    Parsed(Vec<String>),
    /// No candidate text parses as an array of strings.
    Unreadable,
    /// The answer's last `]` comes before its first `[`; slicing between
    /// them panics.
    Reversed,
}

/// The reading as a specification value: `Some(Some(strings))`,
/// `Some(None)` when unreadable, `None` when the brackets are reversed.
pub open spec fn string_array_view(r: StringArray) -> Option<Option<Seq<Seq<char>>>> {
    match r {
        StringArray::Parsed(v) => Some(Some(crate::text::str_views(v@))),
        StringArray::Unreadable => Some(None),
        StringArray::Reversed => None,
    }
}

/// Which candidate reading wins: the whole answer's, then the fenced text's,
/// then the bracketed span's (`None` there when the brackets are reversed,
/// `Some(None)` when they are missing or the span does not parse).
pub open spec fn picked<T>(whole: Option<T>, fenced: Option<T>, bracketed: Option<Option<T>>) -> Option<
    Option<T>,
> {
    match whole {
        Some(v) => Some(Some(v)),
        None => match fenced {
            Some(v) => Some(Some(v)),
            None => bracketed,
        },
    }
}

/// Chooses among the candidate readings of a model answer, for readings of
/// any type: the whole answer's, then the fenced text's, then the bracketed
/// span's (`None` when the brackets are reversed, `Some(None)` when they are
/// missing or the span does not parse).
pub fn pick_reading<T>(whole: Option<T>, fenced: Option<T>, bracketed: Option<Option<T>>) -> (r:
    Option<Option<T>>)
    ensures
        r == picked(whole, fenced, bracketed),
{
    match whole {
        Some(v) => Some(Some(v)),
        None => match fenced {
            Some(v) => Some(Some(v)),
            None => bracketed,
        },
    }
}

/// The reading of the span between an answer's first `[` and last `]`.
pub open spec fn bracket_reading(t: Seq<char>) -> Option<Option<Seq<Seq<char>>>> {
    match bracketed(t) {
        None => Some(None),
        Some(None) => None,
        Some(Some(slice)) => Some(json_string_array(slice)),
    }
}

/// The reading of an answer's first markdown fence.
pub open spec fn fence_reading(t: Seq<char>) -> Option<Seq<Seq<char>>> {
    match fenced_json(t) {
        Some(f) => json_string_array(f),
        None => None,
    }
}

/// Reading a JSON array of strings from a model answer: the trimmed answer
/// itself, then the inside of its first markdown fence, then the span from
/// its first `[` to its last `]`, each parsed in turn; the first that parses
/// is the answer.
pub open spec fn string_array_of(response: Seq<char>) -> Option<Option<Seq<Seq<char>>>> {
    let t = crate::text::trim(response);
    picked(json_string_array(t), fence_reading(t), bracket_reading(t))
}

/// Chooses among the candidate readings of an answer: the whole answer's,
/// the fenced text's, and the bracketed span's (`None` when the brackets are
/// reversed, `Some(None)` when they are missing or the span does not parse).
pub fn pick_string_array(
    whole: Option<Vec<String>>,
    fenced: Option<Vec<String>>,
    bracketed: Option<Option<Vec<String>>>,
) -> (r: StringArray)
    ensures
        string_array_view(r) == picked(
            crate::text::opt_list_view(whole),
            crate::text::opt_list_view(fenced),
            match bracketed {
                Some(b) => Some(crate::text::opt_list_view(b)),
                None => None,
            },
        ),
{
    match whole {
        Some(v) => StringArray::Parsed(v),
        None => match fenced {
            Some(v) => StringArray::Parsed(v),
            None => match bracketed {
                Some(Some(v)) => StringArray::Parsed(v),
                Some(None) => StringArray::Unreadable,
                None => StringArray::Reversed,
            },
        },
    }
}

/// Reads a JSON array of strings out of a model answer.
pub fn read_string_array(response: &str) -> (r: StringArray)
    ensures
        string_array_view(r) == string_array_of(response@),
{
    let tv = crate::text::trim_chars(&to_chars(response));
    let t = from_chars(&tv);
    let whole = parse_string_array(t.as_str());
    let fenced = match extract_json_from_fences(t.as_str()) {
        Some(f) => parse_string_array(f.as_str()),
        None => None,
    };
    let bracketed = match bracket_slice(t.as_str()) {
        Brackets::Missing => Some(None),
        Brackets::Reversed => None,
        Brackets::Slice(slice) => Some(parse_string_array(slice.as_str())),
    };
    pick_string_array(whole, fenced, bracketed)
}

} // verus!
