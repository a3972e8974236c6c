//! Display-time sanitisation of untrusted text.
//!
//! Insight titles, bodies and tags originate from commit messages and PR
//! comments and end up printed to a terminal. Control characters in them
//! (ANSI escapes, C0 and C1 controls) are dropped before display; tabs and
//! line breaks are kept.
use vstd::prelude::*;
use crate::text::{push_char, to_chars};

verus! {

/// A character that may reach the terminal: tab, `\n`, `\r`, or anything
/// outside the C0 range (below 0x20), DEL (0x7F) and the C1 range (0x80-0x9F).
pub open spec fn is_displayable(c: char) -> bool {
    let code = c as u32;
    c == '\t' || c == '\n' || c == '\r' || (code >= 0x20 && !(0x7F <= code && code <= 0x9F))
}

/// The text with every non-displayable character removed, order kept.
pub open spec fn displayable(s: Seq<char>) -> Seq<char>
    decreases s.len(),
{
    if s.len() == 0 {
        seq![]
    } else if is_displayable(s.last()) {
        displayable(s.drop_last()).push(s.last())
    } else {
        displayable(s.drop_last())
    }
}

fn is_displayable_char(c: char) -> (b: bool)
    ensures
        b == is_displayable(c),
{
    let code = c as u32;
    c == '\t' || c == '\n' || c == '\r' || (code >= 0x20 && !(0x7F <= code && code <= 0x9F))
}

/// Remove control characters that could alter terminal rendering.
pub fn strip_display_controls(s: &str) -> (r: String)
    ensures
        r@ == displayable(s@),
{
    let mut r = String::new();
    let mut i: usize = 0;
    let v = to_chars(s);
    while i < v.len()
        invariant
            i <= v.len(),
            v@ == s@,
            r@ == displayable(v@.take(i as int)),
        decreases v.len() - i,
    {
        let c = v[i];
        proof {
            assert(v@.take(i + 1).drop_last() =~= v@.take(i as int));
        }
        if is_displayable_char(c) {
            push_char(&mut r, c);
        }
        i = i + 1;
    }
    assert(v@.take(v.len() as int) =~= v@);
    r
}

/// Sanitised text holds only displayable characters.
pub proof fn lemma_displayable_only(s: Seq<char>)
    ensures
        forall|i: int| 0 <= i < displayable(s).len() ==> is_displayable(#[trigger] displayable(s)[i]),
        displayable(s).len() <= s.len(),
    decreases s.len(),
{
    if s.len() > 0 {
        lemma_displayable_only(s.drop_last());
    }
}

/// Text made only of displayable characters is left unchanged.
pub proof fn lemma_displayable_fixed(s: Seq<char>)
    requires
        forall|i: int| 0 <= i < s.len() ==> is_displayable(#[trigger] s[i]),
    ensures
        displayable(s) == s,
    decreases s.len(),
{
    if s.len() > 0 {
        assert forall|i: int| 0 <= i < s.drop_last().len() implies is_displayable(
            #[trigger] s.drop_last()[i],
        ) by {
            assert(s.drop_last()[i] == s[i]);
        }
        lemma_displayable_fixed(s.drop_last());
        assert(s.drop_last().push(s.last()) =~= s);
    }
}

/// Sanitising keeps every displayable character, in order: sanitising a
/// concatenation is the concatenation of the sanitised parts.
pub proof fn lemma_displayable_concat(a: Seq<char>, b: Seq<char>)
    ensures
        displayable(a + b) == displayable(a) + displayable(b),
    decreases b.len(),
{
    if b.len() == 0 {
        assert(a + b =~= a);
        assert(displayable(a) + displayable(b) =~= displayable(a));
    } else {
        assert((a + b).drop_last() =~= a + b.drop_last());
        lemma_displayable_concat(a, b.drop_last());
        if is_displayable(b.last()) {
            assert(displayable(a) + displayable(b.drop_last()).push(b.last()) =~= (displayable(a)
                + displayable(b.drop_last())).push(b.last()));
        }
    }
}

/// Law: after sanitising, nothing is left that could alter the terminal
/// (every character is a tab, a line break, or outside the C0, DEL and C1
/// ranges), and sanitising again changes nothing.
pub proof fn law_sanitize_idempotent(s: Seq<char>)
    ensures
        forall|i: int|
            0 <= i < displayable(s).len() ==> is_displayable(#[trigger] displayable(s)[i]),
        displayable(displayable(s)) == displayable(s),
{
    lemma_displayable_only(s);
    lemma_displayable_fixed(displayable(s));
}

/// Law: sanitising keeps exactly the characters that cannot alter the
/// terminal, in order: tab, `\n`, `\r`, and every character whose code is at
/// least 0x20 and not in 0x7F..=0x9F (DEL and the C1 controls). All others
/// (the C0 controls, DEL, C1) are dropped. So text such as "café" (é is
/// U+00E9) comes back unchanged.
pub proof fn law_sanitize_keeps_printable(s: Seq<char>)
    ensures
        displayable(s) == s.filter(
            |c: char|
                c == '\t' || c == '\n' || c == '\r' || ((c as u32) >= 0x20 && !(0x7F <= (c as u32)
                    && (c as u32) <= 0x9F)),
        ),
        (forall|i: int|
            0 <= i < s.len() ==> ((s[i] as u32) >= 0x20 && !(0x7F <= (s[i] as u32) && (s[i] as u32)
                <= 0x9F))) ==> displayable(s) == s,
    decreases s.len(),
{
    let pred = |c: char|
        c == '\t' || c == '\n' || c == '\r' || ((c as u32) >= 0x20 && !(0x7F <= (c as u32) && (c as u32)
            <= 0x9F));
    reveal(Seq::filter);
    if s.len() > 0 {
        law_sanitize_keeps_printable(s.drop_last());
        assert(pred(s.last()) == is_displayable(s.last()));
    }
    if forall|i: int|
        0 <= i < s.len() ==> ((s[i] as u32) >= 0x20 && !(0x7F <= (s[i] as u32) && (s[i] as u32)
            <= 0x9F)) {
        lemma_displayable_fixed(s);
    }
}

} // verus!
