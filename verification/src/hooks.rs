//! The text of diwa's git hooks: what installing writes into a hook file and
//! what uninstalling leaves behind.
//!
//! Hooks are thin: they call `diwa enqueue`, which drops a flag file that the
//! daemon picks up. When a hook file already exists, diwa's block is appended
//! to it, or replaced in place when a previous diwa block is there.
use vstd::prelude::*;
use crate::lemmas::{
    lemma_join_lines_terminated, lemma_join_prepend, lemma_lines_concat, lemma_lines_no_contains,
    lemma_lines_single, lemma_no_contains_prefix, lemma_no_contains_push, lemma_trim_end_idempotent,
    lemma_trim_end_push_ws, no_cr, no_newline,
};
use crate::text::{
    contains, contains_chars, from_chars, join, join_chars, lemma_trim_end, lines, occurs_at,
    slice_chars, split_lines, starts_with, starts_with_chars, strip_cr, to_chars, trim_end,
    trim_end_chars, views,
};

verus! {

/// The marker that starts diwa's block in a hook file: `# diwa:`.
pub open spec fn marker() -> Seq<char> {
    seq!['#', ' ', 'd', 'i', 'w', 'a', ':']
}

/// The lines of the hook diwa installs. The first is the shebang; the rest
/// form diwa's block.
pub open spec fn hook_lines() -> Seq<Seq<char>> {
    seq![
        "#!/usr/bin/env sh"@,
        "# diwa: enqueue repo for indexing"@,
        "# The daemon (installed via `diwa daemon install`) picks up the flag and"@,
        "# indexes in the background, so this hook stays fast."@,
        "if command -v diwa >/dev/null 2>&1; then"@,
        "  diwa enqueue . >/dev/null 2>&1 &"@,
        "fi"@,
    ]
}

/// Diwa's block: every hook line after the shebang, joined by `\n`.
pub open spec fn diwa_block() -> Seq<char> {
    join(hook_lines().skip(1), seq!['\n'])
}

/// The whole hook written into a repo that has none: shebang, block, final `\n`.
pub open spec fn hook_body() -> Seq<char> {
    hook_lines()[0] + seq!['\n'] + diwa_block() + seq!['\n']
}

fn marker_chars() -> (v: Vec<char>)
    ensures
        v@ == marker(),
{
    vec!['#', ' ', 'd', 'i', 'w', 'a', ':']
}

fn lit(s: &str) -> (v: Vec<char>)
    ensures
        v@ == s@,
{
    to_chars(s)
}

/// The hook lines, in order.
fn hook_line_chars() -> (r: Vec<Vec<char>>)
    ensures
        views(r@) == hook_lines(),
{
    let mut r: Vec<Vec<char>> = Vec::new();
    r.push(lit("#!/usr/bin/env sh"));
    r.push(lit("# diwa: enqueue repo for indexing"));
    r.push(lit("# The daemon (installed via `diwa daemon install`) picks up the flag and"));
    r.push(lit("# indexes in the background, so this hook stays fast."));
    r.push(lit("if command -v diwa >/dev/null 2>&1; then"));
    r.push(lit("  diwa enqueue . >/dev/null 2>&1 &"));
    r.push(lit("fi"));
    assert(views(r@) =~= hook_lines());
    r
}

/// Diwa's block (the hook without its shebang line).
pub fn diwa_block_chars() -> (b: Vec<char>)
    ensures
        b@ == diwa_block(),
{
    let all = hook_line_chars();
    let mut rest: Vec<Vec<char>> = Vec::new();
    let mut i: usize = 1;
    assert(views(all@).len() == all@.len());
    assert(views(rest@) =~= hook_lines().subrange(1, 1));
    while i < all.len()
        invariant
            1 <= i <= all.len(),
            all.len() == 7,
            views(all@) == hook_lines(),
            views(rest@) == hook_lines().subrange(1, i as int),
        decreases all.len() - i,
    {
        let line = slice_chars(&all[i], 0, all[i].len());
        assert(line@ =~= all@[i as int]@);
        let ghost before = rest@;
        rest.push(line);
        assert(views(all@)[i as int] == all@[i as int]@);
        assert(views(rest@) =~= views(before).push(line@));
        assert(hook_lines()[i as int] == line@);
        assert(views(rest@) =~= hook_lines().subrange(1, i + 1));
        i = i + 1;
    }
    assert(hook_lines().subrange(1, 7) =~= hook_lines().skip(1));
    let nl = vec!['\n'];
    assert(nl@ =~= seq!['\n']);
    join_chars(&rest, &nl)
}

/// The hook written into a repo that has none.
pub fn hook_body_chars() -> (b: Vec<char>)
    ensures
        b@ == hook_body(),
{
    let mut b = lit("#!/usr/bin/env sh");
    b.push('\n');
    let block = diwa_block_chars();
    crate::text::append_chars(&mut b, &block);
    b.push('\n');
    assert(b@ =~= hook_body());
    b
}

// ---------------------------------------------------------------------------
// Replacing an existing block
// ---------------------------------------------------------------------------

/// A line that continues a diwa block once its marker line was seen: empty,
/// a comment, indented, or an `if` / `fi` line.
pub open spec fn absorbed(line: Seq<char>) -> bool {
    ||| line.len() == 0
    ||| starts_with(line, seq!['#'])
    ||| starts_with(line, seq![' '])
    ||| starts_with(line, seq!['f', 'i'])
    ||| starts_with(line, seq!['i', 'f', ' '])
}

/// The scan over an existing hook's lines: the lines before diwa's block, the
/// lines after it, whether the scan is inside the block, and whether it has
/// passed the block.
pub type Scan = (Seq<Seq<char>>, Seq<Seq<char>>, bool, bool);

/// One step of the scan. A marker line enters the block and is dropped; lines
/// that look like the block are dropped while inside it; the first other line
/// ends the block. Kept lines go before or after depending on whether the
/// block has been passed.
pub open spec fn scan_step(st: Scan, line: Seq<char>) -> Scan {
    if contains(line, marker()) {
        (st.0, st.1, true, st.3)
    } else if st.2 && absorbed(line) {
        st
    } else {
        let past = st.3 || st.2;
        if past {
            (st.0, st.1.push(line), false, true)
        } else {
            (st.0.push(line), st.1, false, false)
        }
    }
}

/// The scan over a sequence of lines.
pub open spec fn scan(ls: Seq<Seq<char>>) -> Scan
    decreases ls.len(),
{
    if ls.len() == 0 {
        (seq![], seq![], false, false)
    } else {
        scan_step(scan(ls.drop_last()), ls.last())
    }
}

/// The hook with diwa's block replaced by `block`: the lines before it
/// (trailing whitespace trimmed), a blank line, the new block, then the lines
/// after it (if any) after another blank line, and a final `\n`.
pub open spec fn replaced(existing: Seq<char>, block: Seq<char>) -> Seq<char> {
    let st = scan(lines(existing));
    let head = trim_end(join(st.0, seq!['\n'])) + seq!['\n', '\n'] + block;
    if st.1.len() > 0 {
        head + seq!['\n', '\n'] + join(st.1, seq!['\n']) + seq!['\n']
    } else {
        head + seq!['\n']
    }
}

fn is_absorbed(line: &Vec<char>) -> (b: bool)
    ensures
        b == absorbed(line@),
{
    let p1 = vec!['#'];
    let p2 = vec![' '];
    let p3 = vec!['f', 'i'];
    let p4 = vec!['i', 'f', ' '];
    assert(p1@ =~= seq!['#']);
    assert(p2@ =~= seq![' ']);
    assert(p3@ =~= seq!['f', 'i']);
    assert(p4@ =~= seq!['i', 'f', ' ']);
    line.len() == 0 || starts_with_chars(line, &p1) || starts_with_chars(line, &p2)
        || starts_with_chars(line, &p3) || starts_with_chars(line, &p4)
}

/// Splice a new diwa block in place of the existing one, preserving any
/// non-diwa content before and after.
pub fn replace_diwa_block(existing: &str, new_block: &str) -> (r: String)
    ensures
        r@ == replaced(existing@, new_block@),
{
    let text = to_chars(existing);
    let ls = split_lines(&text);
    let m = marker_chars();
    let mut before: Vec<Vec<char>> = Vec::new();
    let mut after: Vec<Vec<char>> = Vec::new();
    let mut in_block = false;
    let mut past = false;
    let mut i: usize = 0;
    while i < ls.len()
        invariant
            i <= ls.len(),
            m@ == marker(),
            views(ls@) == lines(existing@),
            scan(views(ls@).take(i as int)) == (views(before@), views(after@), in_block, past),
        decreases ls.len() - i,
    {
        proof {
            assert(views(ls@).take(i + 1).drop_last() =~= views(ls@).take(i as int));
            assert(views(ls@).take(i + 1).last() == ls@[i as int]@);
        }
        let line = slice_chars(&ls[i], 0, ls[i].len());
        assert(line@ =~= ls@[i as int]@);
        if contains_chars(&line, &m) {
            in_block = true;
        } else if in_block && is_absorbed(&line) {
        } else {
            if in_block {
                in_block = false;
                past = true;
            }
            if past {
                let ghost a = after@;
                after.push(line);
                assert(views(after@) =~= views(a).push(line@));
            } else {
                let ghost b = before@;
                before.push(line);
                assert(views(before@) =~= views(b).push(line@));
            }
        }
        i = i + 1;
    }
    assert(views(ls@).take(ls.len() as int) =~= views(ls@));
    let nl = vec!['\n'];
    assert(nl@ =~= seq!['\n']);
    let joined_before = join_chars(&before, &nl);
    let mut out = trim_end_chars(&joined_before);
    out.push('\n');
    out.push('\n');
    let block = to_chars(new_block);
    crate::text::append_chars(&mut out, &block);
    if after.len() > 0 {
        out.push('\n');
        out.push('\n');
        let joined_after = join_chars(&after, &nl);
        crate::text::append_chars(&mut out, &joined_after);
    }
    out.push('\n');
    proof {
        let st = scan(lines(existing@));
        let head = trim_end(join(st.0, seq!['\n'])) + seq!['\n', '\n'] + new_block@;
        if st.1.len() > 0 {
            assert(out@ =~= head + seq!['\n', '\n'] + join(st.1, seq!['\n']) + seq!['\n']);
        } else {
            assert(out@ =~= head + seq!['\n']);
        }
    }
    from_chars(&out)
}

// ---------------------------------------------------------------------------
// Installing
// ---------------------------------------------------------------------------

/// What installing writes into a hook file: the full hook when there is no
/// file yet; the file with its diwa block replaced when it has one; otherwise
/// the file (trailing whitespace trimmed), a blank line, diwa's block and a
/// final `\n`.
pub open spec fn installed_hook(existing: Option<Seq<char>>) -> Seq<char> {
    match existing {
        None => hook_body(),
        Some(e) => if contains(e, marker()) {
            replaced(e, diwa_block())
        } else {
            trim_end(e) + seq!['\n', '\n'] + diwa_block() + seq!['\n']
        },
    }
}

/// The contents a hook file gets when diwa installs into it; `existing` is
/// the current contents, `None` when the file does not exist.
pub fn installed_hook_contents(existing: Option<&str>) -> (r: String)
    ensures
        r@ == installed_hook(
            match existing {
                Some(e) => Some(e@),
                None => None,
            },
        ),
{
    match existing {
        None => {
            let b = hook_body_chars();
            from_chars(&b)
        },
        Some(e) => {
            let text = to_chars(e);
            let m = marker_chars();
            let block = diwa_block_chars();
            if contains_chars(&text, &m) {
                let block_str = from_chars(&block);
                replace_diwa_block(e, block_str.as_str())
            } else {
                let mut out = trim_end_chars(&text);
                out.push('\n');
                out.push('\n');
                crate::text::append_chars(&mut out, &block);
                out.push('\n');
                assert(out@ =~= trim_end(e@) + seq!['\n', '\n'] + diwa_block() + seq!['\n']);
                from_chars(&out)
            }
        },
    }
}

// ---------------------------------------------------------------------------
// Uninstalling
// ---------------------------------------------------------------------------

/// The lines before the first line that holds the marker (all lines when none does).
pub open spec fn lines_before_marker(ls: Seq<Seq<char>>) -> Seq<Seq<char>>
    decreases ls.len(),
{
    if ls.len() == 0 {
        ls
    } else if contains(ls[0], marker()) {
        seq![]
    } else {
        seq![ls[0]] + lines_before_marker(ls.drop_first())
    }
}

/// What is left of a hook file once diwa's block and everything after it is cut.
pub open spec fn cleaned_hook(existing: Seq<char>) -> Seq<char> {
    trim_end(join(lines_before_marker(lines(existing)), seq!['\n']))
}

/// Whether what is left is nothing but a shebang (or nothing at all).
pub open spec fn is_bare_shebang(t: Seq<char>) -> bool {
    t == Seq::<char>::empty() || t == "#!/usr/bin/env sh"@ || t == "#!/bin/sh"@
}

/// What uninstalling does to one hook file.
#[derive(Debug, PartialEq, Eq)]
pub enum HookCleanup {
    /// The file holds no diwa block; leave it alone.
    NotInstalled,
    /// Only diwa's block (and maybe a shebang) was there: delete the file.
    Remove,
    /// Other content remains: write it back.
    Rewrite(String),
}

/// The cleanup that uninstalling does to a hook file with these contents.
pub open spec fn hook_cleanup(existing: Seq<char>) -> Option<Option<Seq<char>>> {
    if !contains(existing, marker()) {
        None
    } else if is_bare_shebang(cleaned_hook(existing)) {
        Some(None)
    } else {
        Some(Some(cleaned_hook(existing) + seq!['\n']))
    }
}

/// The view of a cleanup: `None` to leave the file, `Some(None)` to delete it,
/// `Some(Some(text))` to write `text`.
pub open spec fn cleanup_view(c: HookCleanup) -> Option<Option<Seq<char>>> {
    match c {
        HookCleanup::NotInstalled => None,
        HookCleanup::Remove => Some(None),
        HookCleanup::Rewrite(s) => Some(Some(s@)),
    }
}

/// Strip diwa's block from a hook file: everything from the first marker
/// line on is cut, trailing whitespace is trimmed, and the file is deleted
/// when only a shebang remains.
pub fn strip_diwa_hook(existing: &str) -> (r: HookCleanup)
    ensures
        cleanup_view(r) == hook_cleanup(existing@),
{
    let text = to_chars(existing);
    let m = marker_chars();
    if !contains_chars(&text, &m) {
        return HookCleanup::NotInstalled;
    }
    let ls = split_lines(&text);
    let mut kept: Vec<Vec<char>> = Vec::new();
    let mut i: usize = 0;
    let mut found = false;
    assert(views(ls@).skip(0) =~= views(ls@));
    assert(views(kept@) + lines_before_marker(views(ls@)) =~= lines_before_marker(views(ls@)));
    while i < ls.len() && !found
        invariant
            i <= ls.len(),
            m@ == marker(),
            views(ls@) == lines(existing@),
            !found ==> lines_before_marker(views(ls@)) == views(kept@) + lines_before_marker(
                views(ls@).skip(i as int),
            ),
            found ==> lines_before_marker(views(ls@)) == views(kept@),
        decreases ls.len() - i + (if found { 0int } else { 1int }),
    {
        let line = slice_chars(&ls[i], 0, ls[i].len());
        assert(line@ =~= ls@[i as int]@);
        let ghost rest = views(ls@).skip(i as int);
        assert(rest[0] == line@);
        assert(rest.drop_first() =~= views(ls@).skip(i + 1));
        if contains_chars(&line, &m) {
            found = true;
            assert(views(kept@) + seq![] =~= views(kept@));
        } else {
            let ghost k = kept@;
            kept.push(line);
            assert(views(kept@) =~= views(k) + seq![line@]);
            assert(views(k) + (seq![line@] + lines_before_marker(views(ls@).skip(i + 1))) =~= views(
                kept@,
            ) + lines_before_marker(views(ls@).skip(i + 1)));
            i = i + 1;
        }
    }
    if !found {
        assert(views(ls@).skip(i as int) =~= Seq::<Seq<char>>::empty());
        assert(views(kept@) + Seq::<Seq<char>>::empty() =~= views(kept@));
    }
    let nl = vec!['\n'];
    assert(nl@ =~= seq!['\n']);
    let joined = join_chars(&kept, &nl);
    let cleaned = trim_end_chars(&joined);
    let sh1 = lit("#!/usr/bin/env sh");
    let sh2 = lit("#!/bin/sh");
    if cleaned.len() == 0 || crate::text::eq_chars(&cleaned, &sh1) || crate::text::eq_chars(&cleaned, &sh2) {
        assert(is_bare_shebang(cleaned@)) by {
            if cleaned.len() == 0 {
                assert(cleaned@ =~= Seq::<char>::empty());
            }
        }
        HookCleanup::Remove
    } else {
        let mut out = cleaned;
        out.push('\n');
        HookCleanup::Rewrite(from_chars(&out))
    }
}

// ---------------------------------------------------------------------------
// Laws
// ---------------------------------------------------------------------------

proof fn lemma_hook_line_facts()
    ensures
        no_newline(hook_lines()[0]),
        no_newline(hook_lines()[1]),
        occurs_at(hook_lines()[1], marker(), 0),
        hook_lines()[0].len() > 0,
        hook_lines()[0].last() != '\r',
        hook_lines()[1].len() > 0,
        hook_lines()[1].last() != '\r',
        !contains(hook_lines()[0], marker()),
{
    reveal_strlit("#!/usr/bin/env sh");
    reveal_strlit("# diwa: enqueue repo for indexing");
    let l0 = hook_lines()[0];
    let l1 = hook_lines()[1];
    assert(l1.subrange(0, 7) =~= marker());
    if contains(l0, marker()) {
        let i = choose|i: int| occurs_at(l0, marker(), i);
        assert(l0.subrange(i, i + 7)[2] == 'd');
        assert(l0.subrange(i, i + 7)[0] == '#');
        assert(l0.subrange(i, i + 7)[1] == ' ');
    }
}

/// The lines of diwa's block followed by a `\n` start with the marker line.
proof fn lemma_block_lines(rest: Seq<char>)
    ensures
        lines(diwa_block() + seq!['\n'] + rest).len() > 0,
        contains(lines(diwa_block() + seq!['\n'] + rest)[0], marker()),
{
    lemma_hook_line_facts();
    let l1 = hook_lines()[1];
    let tail = hook_lines().skip(2);
    assert(hook_lines().skip(1) =~= seq![l1] + tail);
    lemma_join_prepend(l1, tail, seq!['\n']);
    let s = diwa_block() + seq!['\n'] + rest;
    assert(s =~= l1 + (seq!['\n'] + join(tail, seq!['\n']) + seq!['\n'] + rest));
    assert forall|j: int| 0 <= j < l1.len() implies s[j] != '\n' by {
        assert(s[j] == l1[j]);
    }
    assert(s[l1.len() as int] == '\n');
    crate::text::lemma_lines_step(s, l1.len() as int);
    assert(s.take(l1.len() as int) =~= l1);
    assert(strip_cr(l1) == l1);
}

/// `lines_before_marker` of lines none of which holds the marker, followed by more lines.
proof fn lemma_before_marker_concat(a: Seq<Seq<char>>, b: Seq<Seq<char>>)
    requires
        forall|k: int| 0 <= k < a.len() ==> !contains(#[trigger] a[k], marker()),
    ensures
        lines_before_marker(a + b) == a + lines_before_marker(b),
    decreases a.len(),
{
    if a.len() == 0 {
        assert(a + b =~= b);
        assert(a + lines_before_marker(b) =~= lines_before_marker(b));
    } else {
        assert((a + b)[0] == a[0]);
        assert((a + b).drop_first() =~= a.drop_first() + b);
        assert forall|k: int| 0 <= k < a.drop_first().len() implies !contains(
            #[trigger] a.drop_first()[k],
            marker(),
        ) by {
            assert(a.drop_first()[k] == a[k + 1]);
        }
        lemma_before_marker_concat(a.drop_first(), b);
        assert(seq![a[0]] + (a.drop_first() + lines_before_marker(b)) =~= a + lines_before_marker(
            b,
        ));
    }
}

/// Cleaning a hook that consists of `t`, a blank line and diwa's block gives `t` back.
proof fn lemma_clean_after_block(t: Seq<char>)
    requires
        !contains(t, marker()),
        no_cr(t),
        trim_end(t) == t,
    ensures
        cleaned_hook(t + seq!['\n', '\n'] + diwa_block() + seq!['\n']) == t,
        contains(t + seq!['\n', '\n'] + diwa_block() + seq!['\n'], marker()),
{
    let x = t.push('\n');
    let y = seq!['\n'];
    let z = diwa_block() + seq!['\n'];
    let whole = t + seq!['\n', '\n'] + diwa_block() + seq!['\n'];
    assert(whole =~= x + (y + z));
    lemma_lines_concat(x, y + z);
    lemma_lines_concat(y, z);
    lemma_lines_single(Seq::<char>::empty());
    assert(Seq::<char>::empty().push('\n') =~= y);
    assert(strip_cr(Seq::<char>::empty()) =~= Seq::<char>::empty());
    // No line of `t\n` holds the marker.
    assert(!contains(x, marker())) by {
        crate::lemmas::lemma_no_contains_push(t, '\n', marker());
    }
    lemma_lines_no_contains(x, marker());
    let lx = lines(x);
    let ly = seq![Seq::<char>::empty()];
    let a = lx + ly;
    assert forall|k: int| 0 <= k < a.len() implies !contains(#[trigger] a[k], marker()) by {
        if k < lx.len() {
            assert(a[k] == lx[k]);
        } else {
            assert(a[k] =~= Seq::<char>::empty());
            if contains(a[k], marker()) {
                let i = choose|i: int| occurs_at(a[k], marker(), i);
            }
        }
    }
    lemma_block_lines(Seq::<char>::empty());
    assert(diwa_block() + seq!['\n'] + Seq::<char>::empty() =~= z);
    let lz = lines(z);
    assert(lines_before_marker(lz) =~= Seq::<Seq<char>>::empty());
    assert(lines(whole) =~= a + lz);
    lemma_before_marker_concat(a, lz);
    assert(lines_before_marker(lines(whole)) =~= a);
    // Joining those lines gives `t` followed by `\n`.
    lemma_join_lines_terminated(t);
    if lx.len() > 0 {
        crate::lemmas::lemma_join_append(lx, Seq::<char>::empty(), seq!['\n']);
        assert(join(a, seq!['\n']) =~= t + seq!['\n']);
    } else {
        assert(join(a, seq!['\n']) =~= Seq::<char>::empty());
        assert(t =~= Seq::<char>::empty()) by {
            assert(lines(x).len() > 0);
        }
    }
    assert(join(a, seq!['\n']) == t.push('\n') || (t.len() == 0 && join(a, seq!['\n']).len()
        == 0));
    if lx.len() > 0 {
        lemma_trim_end_push_ws(t, '\n');
        assert(t + seq!['\n'] =~= t.push('\n'));
    }
    // The block's marker line is in the whole text.
    lemma_hook_line_facts();
    assert(contains(whole, marker())) by {
        let l1 = hook_lines()[1];
        let off: int = t.len() as int + 2;
        assert(hook_lines().skip(1) =~= seq![l1] + hook_lines().skip(2));
        lemma_join_prepend(l1, hook_lines().skip(2), seq!['\n']);
        assert(whole.subrange(off, off + 7) =~= l1.subrange(0, 7));
        assert(occurs_at(whole, marker(), off));
    }
}

/// Law: uninstalling undoes installing. Installing into a hook file that has
/// no diwa block and no `\r`, then uninstalling, leaves the contents it had
/// (trailing whitespace trimmed, one final `\n`), or deletes the file when
/// only a shebang was there.
pub proof fn law_uninstall_undoes_install(existing: Seq<char>)
    requires
        !contains(existing, marker()),
        no_cr(existing),
    ensures
        hook_cleanup(installed_hook(Some(existing))) == (if is_bare_shebang(trim_end(existing)) {
            Some(None::<Seq<char>>)
        } else {
            Some(Some(trim_end(existing) + seq!['\n']))
        }),
{
    let t = trim_end(existing);
    lemma_trim_end(existing);
    lemma_no_contains_prefix(existing, t.len() as int, marker());
    assert(no_cr(t)) by {
        assert forall|j: int| 0 <= j < t.len() implies t[j] != '\r' by {
            assert(t[j] == existing[j]);
        }
    }
    lemma_trim_end_idempotent(existing);
    lemma_clean_after_block(t);
}

/// Law: a hook installed into a repo that had none is deleted by uninstalling.
pub proof fn law_uninstall_removes_fresh_hook()
    ensures
        hook_cleanup(installed_hook(None)) == Some(None::<Seq<char>>),
{
    lemma_hook_line_facts();
    let l0 = hook_lines()[0];
    reveal_strlit("#!/usr/bin/env sh");
    assert(no_cr(l0)) by {
        assert forall|j: int| 0 <= j < l0.len() implies l0[j] != '\r' by {}
    }
    assert(trim_end(l0) == l0);
    assert(hook_body() =~= l0 + seq!['\n'] + diwa_block() + seq!['\n']);
    // `l0` followed by the block is the shape `lemma_clean_after_block` handles
    // with one `\n` fewer; unfold the first line directly.
    let s = hook_body();
    assert forall|j: int| 0 <= j < l0.len() implies s[j] != '\n' by {
        assert(s[j] == l0[j]);
    }
    crate::text::lemma_lines_step(s, l0.len() as int);
    assert(s.take(l0.len() as int) =~= l0);
    let rest = s.skip(l0.len() as int + 1);
    assert(rest =~= diwa_block() + seq!['\n'] + Seq::<char>::empty());
    lemma_block_lines(Seq::<char>::empty());
    assert(lines_before_marker(lines(rest)) =~= Seq::<Seq<char>>::empty());
    assert(lines(s) =~= seq![l0] + lines(rest));
    lemma_before_marker_concat(seq![l0], lines(rest));
    assert(lines_before_marker(lines(s)) =~= seq![l0]);
    assert(join(seq![l0], seq!['\n']) == l0);
    assert(contains(s, marker())) by {
        let l1 = hook_lines()[1];
        let off: int = l0.len() as int + 1;
        assert(hook_lines().skip(1) =~= seq![l1] + hook_lines().skip(2));
        lemma_join_prepend(l1, hook_lines().skip(2), seq!['\n']);
        assert(s.subrange(off, off + 7) =~= l1.subrange(0, 7));
        assert(occurs_at(s, marker(), off));
    }
}

/// The shapes of diwa's block lines: no line break in any, none ending in
/// `\r`; the first holds the marker and the others continue the block.
proof fn lemma_block_line_shapes()
    ensures
        forall|k: int|
            1 <= k < 7 ==> no_newline(#[trigger] hook_lines()[k]) && hook_lines()[k].len() > 0
                && hook_lines()[k].last() != '\r',
        contains(hook_lines()[1], marker()),
        forall|k: int| 2 <= k < 7 ==> absorbed(#[trigger] hook_lines()[k]),
{
    lemma_hook_line_facts();
    reveal_strlit("# The daemon (installed via `diwa daemon install`) picks up the flag and");
    reveal_strlit("# indexes in the background, so this hook stays fast.");
    reveal_strlit("if command -v diwa >/dev/null 2>&1; then");
    reveal_strlit("  diwa enqueue . >/dev/null 2>&1 &");
    reveal_strlit("fi");
    let h = hook_lines();
    assert(h[2].take(1) =~= seq!['#']);
    assert(h[3].take(1) =~= seq!['#']);
    assert(h[4].take(3) =~= seq!['i', 'f', ' ']);
    assert(h[5].take(1) =~= seq![' ']);
    assert(h[6].take(2) =~= seq!['f', 'i']);
    assert forall|k: int| 1 <= k < 7 implies no_newline(#[trigger] hook_lines()[k]) && hook_lines()[k].len() > 0
        && hook_lines()[k].last() != '\r' by {
        if k == 1 {
            reveal_strlit("# diwa: enqueue repo for indexing");
        }
    }
}

/// The lines of lines joined by `\n`, with a final `\n`, are those lines,
/// when none holds a line break or ends in `\r`.
proof fn lemma_lines_of_join(ls: Seq<Seq<char>>)
    requires
        ls.len() > 0,
        forall|k: int| 0 <= k < ls.len() ==> no_newline(#[trigger] ls[k]) && (ls[k].len() == 0
            || ls[k].last() != '\r'),
    ensures
        lines(join(ls, seq!['\n']).push('\n')) == ls,
    decreases ls.len(),
{
    let e = ls.last();
    crate::lemmas::lemma_lines_single(e);
    assert(strip_cr(e) == e);
    if ls.len() == 1 {
        assert(join(ls, seq!['\n']) == ls[0]);
        assert(ls =~= seq![e]);
    } else {
        let init = ls.drop_last();
        assert forall|k: int| 0 <= k < init.len() implies no_newline(#[trigger] init[k]) && (
        init[k].len() == 0 || init[k].last() != '\r') by {
            assert(init[k] == ls[k]);
        }
        lemma_lines_of_join(init);
        assert(init + seq![e] =~= ls);
        crate::lemmas::lemma_join_append(init, e, seq!['\n']);
        let x = join(init, seq!['\n']).push('\n');
        assert(join(ls, seq!['\n']).push('\n') =~= x + e.push('\n'));
        lemma_lines_concat(x, e.push('\n'));
    }
}

/// Scanning lines none of which holds the marker keeps them all before the block.
proof fn lemma_scan_plain(a: Seq<Seq<char>>)
    requires
        forall|k: int| 0 <= k < a.len() ==> !contains(#[trigger] a[k], marker()),
    ensures
        scan(a) == (a, Seq::<Seq<char>>::empty(), false, false),
    decreases a.len(),
{
    if a.len() > 0 {
        let init = a.drop_last();
        assert forall|k: int| 0 <= k < init.len() implies !contains(#[trigger] init[k], marker()) by {
            assert(init[k] == a[k]);
        }
        lemma_scan_plain(init);
        assert(init.push(a.last()) =~= a);
    }
}

/// Inside the block, lines that hold the marker or continue the block leave
/// the scan where it was.
proof fn lemma_scan_in_block(pre: Seq<Seq<char>>, rest: Seq<Seq<char>>)
    requires
        scan(pre).2,
        forall|k: int| 0 <= k < rest.len() ==> contains(#[trigger] rest[k], marker()) || absorbed(rest[k]),
    ensures
        scan(pre + rest) == scan(pre),
    decreases rest.len(),
{
    if rest.len() == 0 {
        assert(pre + rest =~= pre);
    } else {
        let init = rest.drop_last();
        assert forall|k: int| 0 <= k < init.len() implies contains(#[trigger] init[k], marker())
            || absorbed(init[k]) by {
            assert(init[k] == rest[k]);
        }
        lemma_scan_in_block(pre, init);
        assert((pre + rest).drop_last() =~= pre + init);
        assert((pre + rest).last() == rest.last());
    }
}

/// Installing twice into a hook file without a diwa block (and without
/// `\r`) is installing once.
proof fn lemma_install_idempotent_plain(existing: Seq<char>)
    requires
        !contains(existing, marker()),
        no_cr(existing),
    ensures
        installed_hook(Some(installed_hook(Some(existing)))) == installed_hook(Some(existing)),
{
    let t = trim_end(existing);
    lemma_trim_end(existing);
    lemma_no_contains_prefix(existing, t.len() as int, marker());
    assert(no_cr(t)) by {
        assert forall|j: int| 0 <= j < t.len() implies t[j] != '\r' by {
            assert(t[j] == existing[j]);
        }
    }
    lemma_trim_end_idempotent(existing);
    lemma_clean_after_block(t);
    let w = t + seq!['\n', '\n'] + diwa_block() + seq!['\n'];
    assert(installed_hook(Some(existing)) == w);
    // The lines of `w`: those of `t`, a blank one, then the block's.
    let x = t.push('\n');
    let y = seq!['\n'];
    let z = diwa_block() + seq!['\n'];
    assert(w =~= x + (y + z));
    lemma_lines_concat(x, y + z);
    lemma_lines_concat(y, z);
    lemma_lines_single(Seq::<char>::empty());
    assert(Seq::<char>::empty().push('\n') =~= y);
    assert(strip_cr(Seq::<char>::empty()) =~= Seq::<char>::empty());
    let lx = lines(x);
    let a = lx + seq![Seq::<char>::empty()];
    lemma_block_line_shapes();
    let bl = hook_lines().skip(1);
    assert forall|k: int| 0 <= k < bl.len() implies no_newline(#[trigger] bl[k]) && (bl[k].len() == 0
        || bl[k].last() != '\r') by {
        assert(bl[k] == hook_lines()[k + 1]);
    }
    lemma_lines_of_join(bl);
    assert(z =~= join(bl, seq!['\n']).push('\n'));
    assert(lines(w) =~= a + bl);
    // No line before the block holds the marker.
    assert(!contains(x, marker())) by {
        crate::lemmas::lemma_no_contains_push(t, '\n', marker());
    }
    lemma_lines_no_contains(x, marker());
    assert forall|k: int| 0 <= k < a.len() implies !contains(#[trigger] a[k], marker()) by {
        if k < lx.len() {
            assert(a[k] == lx[k]);
        } else {
            assert(a[k] =~= Seq::<char>::empty());
            if contains(a[k], marker()) {
                let i = choose|i: int| occurs_at(a[k], marker(), i);
            }
        }
    }
    lemma_scan_plain(a);
    // The marker line enters the block; the rest of the block is absorbed.
    let pre = a.push(bl[0]);
    assert(pre.drop_last() =~= a);
    assert(bl[0] == hook_lines()[1]);
    assert(scan(pre) == (a, Seq::<Seq<char>>::empty(), true, false));
    let rest = bl.skip(1);
    assert forall|k: int| 0 <= k < rest.len() implies contains(#[trigger] rest[k], marker()) || absorbed(
        rest[k],
    ) by {
        assert(rest[k] == hook_lines()[k + 2]);
    }
    lemma_scan_in_block(pre, rest);
    assert(pre + rest =~= a + bl);
    assert(scan(lines(w)) == (a, Seq::<Seq<char>>::empty(), true, false));
    // What comes before the block joins back to `t` and a `\n`.
    lemma_join_lines_terminated(t);
    crate::lemmas::lemma_join_append(lx, Seq::<char>::empty(), seq!['\n']);
    assert(join(a, seq!['\n']) =~= t + seq!['\n']);
    lemma_trim_end_push_ws(t, '\n');
    assert(t + seq!['\n'] =~= t.push('\n'));
    assert(replaced(w, diwa_block()) =~= w);
}

// ---------------------------------------------------------------------------
// Installing over an installed block
// ---------------------------------------------------------------------------

/// A line with neither a line break nor a `\r`.
pub open spec fn plain_line(l: Seq<char>) -> bool {
    no_newline(l) && no_cr(l)
}

/// The lines of a text without `\r` are plain.
proof fn lemma_lines_plain(s: Seq<char>)
    requires
        no_cr(s),
    ensures
        forall|k: int| 0 <= k < lines(s).len() ==> plain_line(#[trigger] lines(s)[k]),
    decreases s.len(),
{
    if s.len() > 0 {
        crate::text::lemma_first_index(s, '\n');
        let i = crate::text::first_index(s, '\n');
        if i >= s.len() {
            assert(lines(s) == seq![s]);
            assert(plain_line(s));
        } else {
            crate::text::lemma_lines_step(s, i);
            let r = s.skip(i + 1);
            assert(no_cr(r)) by {
                assert forall|j: int| 0 <= j < r.len() implies r[j] != '\r' by {
                    assert(r[j] == s[i + 1 + j]);
                }
            }
            lemma_lines_plain(r);
            let p = s.take(i);
            assert(strip_cr(p) == p) by {
                if p.len() > 0 {
                    assert(p.last() == s[i - 1]);
                }
            }
            assert(plain_line(p)) by {
                assert forall|j: int| 0 <= j < p.len() implies p[j] != '\n' && p[j] != '\r' by {
                    assert(p[j] == s[j]);
                }
            }
            assert forall|k: int| 0 <= k < lines(s).len() implies plain_line(#[trigger] lines(s)[k]) by {
                if k > 0 {
                    assert(lines(s)[k] == lines(r)[k - 1]);
                }
            }
        }
    }
}

/// What the scan keeps: lines as plain as the input's, none holding the
/// marker; lines after the block exist exactly once the block was passed,
/// and the first of them ended the block, so it does not continue one.
proof fn lemma_scan_facts(ls: Seq<Seq<char>>)
    requires
        forall|k: int| 0 <= k < ls.len() ==> plain_line(#[trigger] ls[k]),
    ensures
        forall|k: int| 0 <= k < scan(ls).0.len() ==> plain_line(#[trigger] scan(ls).0[k]) && !contains(
            scan(ls).0[k],
            marker(),
        ),
        forall|k: int| 0 <= k < scan(ls).1.len() ==> plain_line(#[trigger] scan(ls).1[k]) && !contains(
            scan(ls).1[k],
            marker(),
        ),
        scan(ls).3 <==> scan(ls).1.len() > 0,
        scan(ls).1.len() > 0 ==> !absorbed(scan(ls).1[0]),
    decreases ls.len(),
{
    if ls.len() > 0 {
        let init = ls.drop_last();
        assert forall|k: int| 0 <= k < init.len() implies plain_line(#[trigger] init[k]) by {
            assert(init[k] == ls[k]);
        }
        lemma_scan_facts(init);
        let st = scan(init);
        let line = ls.last();
        assert(plain_line(line));
        let out = scan(ls);
        assert(out == scan_step(st, line));
        if !contains(line, marker()) && !(st.2 && absorbed(line)) {
            if st.3 || st.2 {
                assert forall|k: int| 0 <= k < out.1.len() implies plain_line(#[trigger] out.1[k])
                    && !contains(out.1[k], marker()) by {
                    if k < st.1.len() {
                        assert(out.1[k] == st.1[k]);
                    }
                }
                if st.1.len() > 0 {
                    assert(out.1[0] == st.1[0]);
                }
            } else {
                assert forall|k: int| 0 <= k < out.0.len() implies plain_line(#[trigger] out.0[k])
                    && !contains(out.0[k], marker()) by {
                    if k < st.0.len() {
                        assert(out.0[k] == st.0[k]);
                    }
                }
            }
        }
    }
}

/// Joining lines none of which holds `m` (which has no line break) gives a
/// text that does not hold `m`.
proof fn lemma_join_no_contains(ls: Seq<Seq<char>>, m: Seq<char>)
    requires
        m.len() > 0,
        no_newline(m),
        forall|k: int| 0 <= k < ls.len() ==> !contains(#[trigger] ls[k], m),
    ensures
        !contains(join(ls, seq!['\n']), m),
    decreases ls.len(),
{
    if ls.len() == 0 {
        let j = join(ls, seq!['\n']);
        assert(j.len() == 0);
        if contains(j, m) {
            let i = choose|i: int| occurs_at(j, m, i);
        }
    } else if ls.len() == 1 {
        assert(join(ls, seq!['\n']) == ls[0]);
    } else {
        let init = ls.drop_last();
        assert forall|k: int| 0 <= k < init.len() implies !contains(#[trigger] init[k], m) by {
            assert(init[k] == ls[k]);
        }
        lemma_join_no_contains(init, m);
        let a = join(init, seq!['\n']);
        let e = ls.last();
        assert(!contains(e, m));
        let j = join(ls, seq!['\n']);
        assert(j == a + seq!['\n'] + e);
        if contains(j, m) {
            let i = choose|i: int| occurs_at(j, m, i);
            if i + m.len() <= a.len() {
                assert(j.subrange(i, i + m.len()) =~= a.subrange(i, i + m.len()));
                assert(occurs_at(a, m, i));
            } else if i > a.len() {
                let o = i - a.len() - 1;
                assert(j.subrange(i, i + m.len()) =~= e.subrange(o, o + m.len()));
                assert(occurs_at(e, m, o));
            } else {
                assert(j[a.len() as int] == '\n');
                assert(j.subrange(i, i + m.len())[a.len() - i] == '\n');
            }
        }
    }
}

/// Joined plain lines hold no `\r`.
proof fn lemma_join_no_cr(ls: Seq<Seq<char>>)
    requires
        forall|k: int| 0 <= k < ls.len() ==> plain_line(#[trigger] ls[k]),
    ensures
        no_cr(join(ls, seq!['\n'])),
    decreases ls.len(),
{
    if ls.len() == 0 {
        assert(join(ls, seq!['\n']).len() == 0);
    } else if ls.len() == 1 {
        assert(join(ls, seq!['\n']) == ls[0]);
        assert(plain_line(ls[0]));
    } else {
        let init = ls.drop_last();
        assert forall|k: int| 0 <= k < init.len() implies plain_line(#[trigger] init[k]) by {
            assert(init[k] == ls[k]);
        }
        lemma_join_no_cr(init);
        let a = join(init, seq!['\n']);
        let e = ls.last();
        assert(plain_line(e));
        let j = join(ls, seq!['\n']);
        assert(j == a + seq!['\n'] + e);
        assert forall|i: int| 0 <= i < j.len() implies j[i] != '\r' by {
            if i < a.len() {
                assert(j[i] == a[i]);
            } else if i > a.len() {
                assert(j[i] == e[i - a.len() - 1]);
            }
        }
    }
}

/// Past the block, lines without the marker are all kept after it, the
/// first of them ending the block.
proof fn lemma_scan_after(pre: Seq<Seq<char>>, rest: Seq<Seq<char>>, x: Seq<Seq<char>>)
    requires
        scan(pre) == (x, Seq::<Seq<char>>::empty(), true, false),
        rest.len() > 0,
        !absorbed(rest[0]),
        forall|k: int| 0 <= k < rest.len() ==> !contains(#[trigger] rest[k], marker()),
    ensures
        scan(pre + rest) == (x, rest, false, true),
    decreases rest.len(),
{
    let init = rest.drop_last();
    assert((pre + rest).drop_last() =~= pre + init);
    assert((pre + rest).last() == rest.last());
    if rest.len() == 1 {
        assert(pre + init =~= pre);
        assert(rest.last() == rest[0]);
        assert(Seq::<Seq<char>>::empty().push(rest[0]) =~= rest);
    } else {
        assert forall|k: int| 0 <= k < init.len() implies !contains(#[trigger] init[k], marker()) by {
            assert(init[k] == rest[k]);
        }
        assert(init[0] == rest[0]);
        lemma_scan_after(pre, init, x);
        assert(init.push(rest.last()) =~= rest);
    }
}

/// Diwa's block opens with the marker.
proof fn lemma_block_opens_with_marker()
    ensures
        diwa_block().len() >= 7,
        diwa_block().subrange(0, 7) == marker(),
{
    lemma_hook_line_facts();
    let l1 = hook_lines()[1];
    assert(hook_lines().skip(1) =~= seq![l1] + hook_lines().skip(2));
    lemma_join_prepend(l1, hook_lines().skip(2), seq!['\n']);
    assert(diwa_block().subrange(0, 7) =~= l1.subrange(0, 7));
}

/// Installing over a hook file that already has a diwa block (and no `\r`),
/// then installing again, changes nothing more.
proof fn lemma_install_over_block(e: Seq<char>)
    requires
        no_cr(e),
        contains(e, marker()),
    ensures
        installed_hook(Some(installed_hook(Some(e)))) == installed_hook(Some(e)),
{
    let st = scan(lines(e));
    let bef = st.0;
    let aft = st.1;
    lemma_lines_plain(e);
    lemma_scan_facts(lines(e));
    // What comes before the block: no marker, no `\r`.
    let jb = join(bef, seq!['\n']);
    lemma_hook_line_facts();
    assert(no_newline(marker()));
    lemma_join_no_contains(bef, marker());
    lemma_join_no_cr(bef);
    let p = trim_end(jb);
    lemma_trim_end(jb);
    lemma_no_contains_prefix(jb, p.len() as int, marker());
    assert(no_cr(p)) by {
        assert forall|j: int| 0 <= j < p.len() implies p[j] != '\r' by {
            assert(p[j] == jb[j]);
        }
    }
    lemma_trim_end_idempotent(jb);
    let b = diwa_block();
    let r = installed_hook(Some(e));
    assert(r == replaced(e, b));
    // The pieces of the rewritten file and their lines.
    let x = p.push('\n');
    let y = seq!['\n'];
    let z = b + seq!['\n'];
    lemma_lines_single(Seq::<char>::empty());
    assert(Seq::<char>::empty().push('\n') =~= y);
    assert(strip_cr(Seq::<char>::empty()) =~= Seq::<char>::empty());
    lemma_block_line_shapes();
    let bl = hook_lines().skip(1);
    assert forall|k: int| 0 <= k < bl.len() implies no_newline(#[trigger] bl[k]) && (bl[k].len() == 0
        || bl[k].last() != '\r') by {
        assert(bl[k] == hook_lines()[k + 1]);
    }
    lemma_lines_of_join(bl);
    assert(z =~= join(bl, seq!['\n']).push('\n'));
    let lx = lines(x);
    let a = lx + seq![Seq::<char>::empty()];
    assert(!contains(x, marker())) by {
        crate::lemmas::lemma_no_contains_push(p, '\n', marker());
    }
    lemma_lines_no_contains(x, marker());
    assert forall|k: int| 0 <= k < a.len() implies !contains(#[trigger] a[k], marker()) by {
        if k < lx.len() {
            assert(a[k] == lx[k]);
        } else {
            assert(a[k] =~= Seq::<char>::empty());
            if contains(a[k], marker()) {
                let i = choose|i: int| occurs_at(a[k], marker(), i);
            }
        }
    }
    lemma_scan_plain(a);
    let pre = a.push(bl[0]);
    assert(pre.drop_last() =~= a);
    assert(bl[0] == hook_lines()[1]);
    assert(scan(pre) == (a, Seq::<Seq<char>>::empty(), true, false));
    let rest = bl.skip(1);
    assert forall|k: int| 0 <= k < rest.len() implies contains(#[trigger] rest[k], marker()) || absorbed(
        rest[k],
    ) by {
        assert(rest[k] == hook_lines()[k + 2]);
    }
    lemma_scan_in_block(pre, rest);
    assert(pre + rest =~= a + bl);
    assert(scan(a + bl) == (a, Seq::<Seq<char>>::empty(), true, false));
    lemma_lines_concat(x, y + z);
    lemma_lines_concat(y, z);
    // What comes before the block joins back to `p`.
    lemma_join_lines_terminated(p);
    crate::lemmas::lemma_join_append(lx, Seq::<char>::empty(), seq!['\n']);
    assert(join(a, seq!['\n']) =~= p + seq!['\n']);
    lemma_trim_end_push_ws(p, '\n');
    assert(p + seq!['\n'] =~= p.push('\n'));
    // The rewritten file holds the marker where the block starts.
    lemma_block_opens_with_marker();
    let off: int = p.len() as int + 2;
    assert(r.subrange(off, off + 7) =~= b.subrange(0, 7));
    assert(occurs_at(r, marker(), off));
    if aft.len() > 0 {
        let ja = join(aft, seq!['\n']).push('\n');
        assert forall|k: int| 0 <= k < aft.len() implies no_newline(#[trigger] aft[k]) && (aft[k].len()
            == 0 || aft[k].last() != '\r') by {
            assert(plain_line(aft[k]));
            if aft[k].len() > 0 {
                assert(aft[k][aft[k].len() - 1] != '\r');
            }
        }
        lemma_lines_of_join(aft);
        assert(r =~= x + (y + (z + (y + ja))));
        lemma_lines_concat(x, y + (z + (y + ja)));
        lemma_lines_concat(y, z + (y + ja));
        lemma_lines_concat(z, y + ja);
        lemma_lines_concat(y, ja);
        assert(lines(y) =~= seq![Seq::<char>::empty()]);
        assert(lines(r) =~= a + bl + (seq![Seq::<char>::empty()] + aft));
        // The blank line after the block is absorbed; the rest is kept after it.
        let pre2 = (a + bl).push(Seq::<char>::empty());
        assert(pre2.drop_last() =~= a + bl);
        assert(absorbed(Seq::<char>::empty()));
        assert(scan(pre2) == (a, Seq::<Seq<char>>::empty(), true, false));
        assert forall|k: int| 0 <= k < aft.len() implies !contains(#[trigger] aft[k], marker()) by {}
        lemma_scan_after(pre2, aft, a);
        assert(pre2 + aft =~= a + bl + (seq![Seq::<char>::empty()] + aft));
        assert(scan(lines(r)) == (a, aft, false, true));
        assert(replaced(r, b) =~= r);
    } else {
        assert(r =~= x + (y + z));
        assert(lines(r) =~= a + bl);
        assert(replaced(r, b) =~= r);
    }
}

/// Law: installing is idempotent. Installing into a hook file without `\r`
/// and installing again gives the same file as installing once, whether or
/// not the file already held a diwa block.
pub proof fn law_install_idempotent(existing: Seq<char>)
    requires
        no_cr(existing),
    ensures
        installed_hook(Some(installed_hook(Some(existing)))) == installed_hook(Some(existing)),
{
    if contains(existing, marker()) {
        lemma_install_over_block(existing);
    } else {
        lemma_install_idempotent_plain(existing);
    }
}

// ---------------------------------------------------------------------------
// Uninstalling after a reinstall
// ---------------------------------------------------------------------------

/// Some line holds the marker.
pub open spec fn has_marker_line(ls: Seq<Seq<char>>) -> bool {
    exists|k: int| 0 <= k < ls.len() && contains(#[trigger] ls[k], marker())
}

/// Once a marker line was seen, the scan is inside or past the block and
/// keeps nothing more before it.
proof fn lemma_scan_after_marker(ls: Seq<Seq<char>>)
    ensures
        !has_marker_line(ls) ==> scan(ls) == (ls, Seq::<Seq<char>>::empty(), false, false),
        has_marker_line(ls) ==> scan(ls).2 || scan(ls).3,
    decreases ls.len(),
{
    if !has_marker_line(ls) {
        assert forall|k: int| 0 <= k < ls.len() implies !contains(#[trigger] ls[k], marker()) by {}
        lemma_scan_plain(ls);
    } else if ls.len() > 0 {
        let init = ls.drop_last();
        lemma_scan_after_marker(init);
        if !has_marker_line(init) {
            let k = choose|k: int| 0 <= k < ls.len() && contains(#[trigger] ls[k], marker());
            if k < init.len() {
                assert(init[k] == ls[k]);
                assert(has_marker_line(init));
            }
            assert(contains(ls.last(), marker()));
        } else {
            assert(has_marker_line(init));
        }
    }
}

/// The lines the scan keeps before the block are those before the first
/// marker line.
proof fn lemma_scan_before_is_before_marker(ls: Seq<Seq<char>>)
    ensures
        scan(ls).0 == lines_before_marker(ls),
    decreases ls.len(),
{
    if ls.len() > 0 {
        let init = ls.drop_last();
        let x = ls.last();
        lemma_scan_before_is_before_marker(init);
        lemma_scan_after_marker(init);
        assert(init + seq![x] =~= ls);
        if has_marker_line(init) {
            let k = choose|k: int| 0 <= k < init.len() && contains(#[trigger] init[k], marker());
            lemma_before_marker_stops(init, seq![x], k);
        } else {
            assert forall|k: int| 0 <= k < init.len() implies !contains(#[trigger] init[k], marker()) by {}
            lemma_before_marker_concat(init, seq![x]);
            if contains(x, marker()) {
                assert(lines_before_marker(seq![x]) =~= Seq::<Seq<char>>::empty());
                assert(init + Seq::<Seq<char>>::empty() =~= init);
            } else {
                let s1 = seq![x];
                assert(s1[0] == x);
                assert(s1.drop_first() =~= Seq::<Seq<char>>::empty());
                assert(lines_before_marker(s1.drop_first()) == Seq::<Seq<char>>::empty());
                assert(lines_before_marker(s1) == seq![s1[0]] + lines_before_marker(
                    s1.drop_first(),
                ));
                assert(seq![x] + Seq::<Seq<char>>::empty() =~= seq![x]);
            }
        }
    }
}

/// Lines after a marker line do not change what comes before it.
proof fn lemma_before_marker_stops(a: Seq<Seq<char>>, b: Seq<Seq<char>>, k: int)
    requires
        0 <= k < a.len(),
        contains(a[k], marker()),
    ensures
        lines_before_marker(a + b) == lines_before_marker(a),
    decreases a.len(),
{
    assert((a + b)[0] == a[0]);
    if !contains(a[0], marker()) {
        assert(k > 0);
        assert((a + b).drop_first() =~= a.drop_first() + b);
        assert(a.drop_first()[k - 1] == a[k]);
        lemma_before_marker_stops(a.drop_first(), b, k - 1);
    }
}

/// Law: uninstalling after a reinstall is uninstalling. For a hook file that
/// already holds a diwa block (and no `\r`), installing again and then
/// uninstalling leaves what uninstalling would have left before.
pub proof fn law_uninstall_after_reinstall(existing: Seq<char>)
    requires
        no_cr(existing),
        contains(existing, marker()),
    ensures
        hook_cleanup(installed_hook(Some(existing))) == hook_cleanup(existing),
{
    let e = existing;
    let st = scan(lines(e));
    let bef = st.0;
    lemma_lines_plain(e);
    lemma_scan_facts(lines(e));
    lemma_scan_before_is_before_marker(lines(e));
    let jb = join(bef, seq!['\n']);
    lemma_hook_line_facts();
    lemma_join_no_contains(bef, marker());
    lemma_join_no_cr(bef);
    let p = trim_end(jb);
    assert(cleaned_hook(e) == p);
    lemma_trim_end(jb);
    lemma_no_contains_prefix(jb, p.len() as int, marker());
    assert(no_cr(p)) by {
        assert forall|j: int| 0 <= j < p.len() implies p[j] != '\r' by {
            assert(p[j] == jb[j]);
        }
    }
    lemma_trim_end_idempotent(jb);
    let b = diwa_block();
    let r = installed_hook(Some(e));
    let x = p.push('\n');
    let y = seq!['\n'];
    let z = b + seq!['\n'];
    let tail = if st.1.len() > 0 {
        seq!['\n'] + join(st.1, seq!['\n']) + seq!['\n']
    } else {
        Seq::<char>::empty()
    };
    assert(r =~= x + (y + (z + tail)));
    lemma_lines_concat(x, y + (z + tail));
    lemma_lines_concat(y, z + tail);
    lemma_lines_single(Seq::<char>::empty());
    assert(Seq::<char>::empty().push('\n') =~= y);
    assert(strip_cr(Seq::<char>::empty()) =~= Seq::<char>::empty());
    let lx = lines(x);
    let a = lx + seq![Seq::<char>::empty()];
    assert(!contains(x, marker())) by {
        crate::lemmas::lemma_no_contains_push(p, '\n', marker());
    }
    lemma_lines_no_contains(x, marker());
    assert forall|k: int| 0 <= k < a.len() implies !contains(#[trigger] a[k], marker()) by {
        if k < lx.len() {
            assert(a[k] == lx[k]);
        } else {
            assert(a[k] =~= Seq::<char>::empty());
            if contains(a[k], marker()) {
                let i = choose|i: int| occurs_at(a[k], marker(), i);
            }
        }
    }
    lemma_block_lines(tail);
    let lz = lines(z + tail);
    assert(b + seq!['\n'] + tail =~= z + tail);
    assert(lines_before_marker(lz) =~= Seq::<Seq<char>>::empty());
    assert(lines(r) =~= a + lz);
    lemma_before_marker_concat(a, lz);
    assert(lines_before_marker(lines(r)) =~= a);
    lemma_join_lines_terminated(p);
    crate::lemmas::lemma_join_append(lx, Seq::<char>::empty(), seq!['\n']);
    assert(join(a, seq!['\n']) =~= p + seq!['\n']);
    lemma_trim_end_push_ws(p, '\n');
    assert(p + seq!['\n'] =~= p.push('\n'));
    assert(cleaned_hook(r) == p);
    lemma_block_opens_with_marker();
    let off: int = p.len() as int + 2;
    assert(r.subrange(off, off + 7) =~= b.subrange(0, 7));
    assert(occurs_at(r, marker(), off));
}

// ---------------------------------------------------------------------------
// Diwa's marker after installing
// ---------------------------------------------------------------------------

/// `pat` occurs in `s` at exactly one position.
pub open spec fn occurs_once(s: Seq<char>, pat: Seq<char>) -> bool {
    exists|i: int| occurs_at(s, pat, i) && forall|j: int| #[trigger] occurs_at(s, pat, j) ==> j == i
}

proof fn lemma_marker_no_newline()
    ensures
        marker().len() == 7,
        no_newline(marker()),
{
}

/// An occurrence of the marker in `a + c` lies within `a` or within `c` when
/// a `\n` stands on one side of the boundary.
proof fn lemma_marker_split(a: Seq<char>, c: Seq<char>, j: int)
    requires
        occurs_at(a + c, marker(), j),
        a.len() == 0 || c.len() == 0 || a.last() == '\n' || c[0] == '\n',
    ensures
        occurs_at(a, marker(), j) || occurs_at(c, marker(), j - a.len()),
{
    let s = a + c;
    let m = marker();
    lemma_marker_no_newline();
    if j + 7 <= a.len() {
        assert(a.subrange(j, j + 7) =~= s.subrange(j, j + 7));
    } else if j >= a.len() {
        assert(c.subrange(j - a.len(), j - a.len() + 7) =~= s.subrange(j, j + 7));
    } else {
        let k1: int = a.len() - 1;
        let k2: int = a.len() as int;
        assert(s.subrange(j, j + 7)[k1 - j] == s[k1]);
        assert(s.subrange(j, j + 7)[k2 - j] == s[k2]);
        assert(s[k1] == a.last());
        assert(s[k2] == c[0]);
        assert(m[k1 - j] != '\n');
        assert(m[k2 - j] != '\n');
    }
}

/// Joining two texts without the marker at a `\n` gives a text without it.
proof fn lemma_no_marker_concat(a: Seq<char>, c: Seq<char>)
    requires
        !contains(a, marker()),
        !contains(c, marker()),
        a.len() == 0 || c.len() == 0 || a.last() == '\n' || c[0] == '\n',
    ensures
        !contains(a + c, marker()),
{
    if contains(a + c, marker()) {
        let j = choose|j: int| occurs_at(a + c, marker(), j);
        lemma_marker_split(a, c, j);
    }
}

/// The marker occurs once in `a + b + c` when it occurs once in `b`, not in
/// `a` or `c`, and `\n` separates the pieces.
proof fn lemma_marker_once_between(a: Seq<char>, b: Seq<char>, c: Seq<char>)
    requires
        !contains(a, marker()),
        occurs_once(b, marker()),
        !contains(c, marker()),
        a.len() == 0 || a.last() == '\n',
        c.len() == 0 || c[0] == '\n',
    ensures
        occurs_once(a + b + c, marker()),
{
    let m = marker();
    let i0 = choose|i: int| occurs_at(b, m, i) && forall|j: int| #[trigger] occurs_at(b, m, j) ==> j == i;
    let s = a + b + c;
    let w: int = a.len() + i0;
    assert(s.subrange(w, w + 7) =~= b.subrange(i0, i0 + 7));
    assert(occurs_at(s, m, w));
    assert forall|j: int| #[trigger] occurs_at(s, m, j) implies j == w by {
        assert(s =~= (a + b) + c);
        if (a + b).len() > 0 && c.len() > 0 {
            if b.len() > 0 {
                assert((a + b).last() == b.last());
            }
        }
        lemma_marker_split(a + b, c, j);
        if occurs_at(a + b, m, j) {
            lemma_marker_split(a, b, j);
            if occurs_at(a, m, j) {
                assert(contains(a, m));
            } else {
                assert(occurs_at(b, m, j - a.len()));
            }
        } else {
            assert(contains(c, m));
        }
    }
}

/// A text with no `:` holds no marker.
proof fn lemma_no_colon_no_marker(s: Seq<char>)
    requires
        forall|k: int| 0 <= k < s.len() ==> s[k] != ':',
    ensures
        !contains(s, marker()),
{
    if contains(s, marker()) {
        let i = choose|i: int| occurs_at(s, marker(), i);
        assert(s.subrange(i, i + 7)[6] == s[i + 6]);
    }
}

/// The marker occurs exactly once in diwa's block, at its start.
proof fn lemma_block_marker_once()
    ensures
        occurs_once(diwa_block(), marker()),
{
    reveal_strlit("# diwa: enqueue repo for indexing");
    reveal_strlit("# The daemon (installed via `diwa daemon install`) picks up the flag and");
    reveal_strlit("# indexes in the background, so this hook stays fast.");
    reveal_strlit("if command -v diwa >/dev/null 2>&1; then");
    reveal_strlit("  diwa enqueue . >/dev/null 2>&1 &");
    reveal_strlit("fi");
    lemma_hook_line_facts();
    let l1 = hook_lines()[1];
    let tail = hook_lines().skip(2);
    assert(hook_lines().skip(1) =~= seq![l1] + tail);
    lemma_join_prepend(l1, tail, seq!['\n']);
    assert forall|k: int| 0 <= k < tail.len() implies !contains(#[trigger] tail[k], marker()) by {
        let t = tail[k];
        assert forall|q: int| 0 <= q < t.len() implies t[q] != ':' by {}
        lemma_no_colon_no_marker(t);
    }
    lemma_marker_no_newline();
    lemma_join_no_contains(tail, marker());
    let c = seq!['\n'] + join(tail, seq!['\n']);
    assert(!contains(seq!['\n'], marker())) by {
        lemma_no_colon_no_marker(seq!['\n']);
    }
    lemma_no_marker_concat(seq!['\n'], join(tail, seq!['\n']));
    // The marker line holds the marker at its start and nowhere else.
    let suffix = l1.skip(7);
    assert(l1 =~= marker() + suffix);
    assert forall|q: int| 0 <= q < suffix.len() implies suffix[q] != ':' by {}
    assert(occurs_at(l1, marker(), 0));
    assert forall|j: int| #[trigger] occurs_at(l1, marker(), j) implies j == 0 by {
        if j > 0 {
            assert(l1.subrange(j, j + 7)[6] == l1[j + 6]);
            assert(l1[j + 6] == suffix[j - 1]);
        }
    }
    assert(occurs_once(l1, marker()));
    lemma_marker_once_between(Seq::<char>::empty(), l1, c);
    assert(Seq::<char>::empty() + l1 + c =~= diwa_block());
}

/// Law: whatever a hook file held (or if there was none), the file diwa
/// installs holds its marker exactly once, and holds diwa's whole block.
pub proof fn law_install_leaves_one_marker(existing: Option<Seq<char>>)
    ensures
        occurs_once(installed_hook(existing), marker()),
        contains(installed_hook(existing), diwa_block()),
{
    let b = diwa_block();
    lemma_block_marker_once();
    lemma_marker_no_newline();
    let r = installed_hook(existing);
    match existing {
        None => {
            lemma_hook_line_facts();
            let a = hook_lines()[0] + seq!['\n'];
            lemma_no_contains_push(hook_lines()[0], '\n', marker());
            assert(hook_lines()[0].push('\n') =~= a);
            assert(!contains(seq!['\n'], marker())) by {
                lemma_no_colon_no_marker(seq!['\n']);
            }
            lemma_marker_once_between(a, b, seq!['\n']);
            assert(a + b + seq!['\n'] =~= r);
            assert(r.subrange(a.len() as int, (a.len() + b.len()) as int) =~= b);
            assert(occurs_at(r, b, a.len() as int));
        },
        Some(e) => {
            if contains(e, marker()) {
                let st = scan(lines(e));
                lemma_scan_no_marker(lines(e));
                lemma_join_no_contains(st.0, marker());
                let t = trim_end(join(st.0, seq!['\n']));
                lemma_trim_end(join(st.0, seq!['\n']));
                lemma_no_contains_prefix(join(st.0, seq!['\n']), t.len() as int, marker());
                let a = t + seq!['\n', '\n'];
                assert(!contains(a, marker())) by {
                    lemma_no_contains_push(t, '\n', marker());
                    lemma_no_contains_push(t.push('\n'), '\n', marker());
                    assert(t.push('\n').push('\n') =~= a);
                }
                let c = if st.1.len() > 0 {
                    seq!['\n', '\n'] + join(st.1, seq!['\n']) + seq!['\n']
                } else {
                    seq!['\n']
                };
                assert(!contains(c, marker())) by {
                    assert(!contains(seq!['\n'], marker())) by {
                        lemma_no_colon_no_marker(seq!['\n']);
                    }
                    if st.1.len() > 0 {
                        lemma_join_no_contains(st.1, marker());
                        let j1 = join(st.1, seq!['\n']);
                        assert(!contains(seq!['\n', '\n'], marker())) by {
                            lemma_no_colon_no_marker(seq!['\n', '\n']);
                        }
                        lemma_no_marker_concat(seq!['\n', '\n'], j1);
                        lemma_no_contains_push(seq!['\n', '\n'] + j1, '\n', marker());
                        assert((seq!['\n', '\n'] + j1).push('\n') =~= c);
                    }
                }
                assert(r =~= a + b + c);
                lemma_marker_once_between(a, b, c);
                assert(r.subrange(a.len() as int, (a.len() + b.len()) as int) =~= b);
                assert(occurs_at(r, b, a.len() as int));
            } else {
                let t = trim_end(e);
                lemma_trim_end(e);
                lemma_no_contains_prefix(e, t.len() as int, marker());
                let a = t + seq!['\n', '\n'];
                assert(!contains(a, marker())) by {
                    lemma_no_contains_push(t, '\n', marker());
                    lemma_no_contains_push(t.push('\n'), '\n', marker());
                    assert(t.push('\n').push('\n') =~= a);
                }
                assert(!contains(seq!['\n'], marker())) by {
                    lemma_no_colon_no_marker(seq!['\n']);
                }
                assert(r =~= a + b + seq!['\n']);
                lemma_marker_once_between(a, b, seq!['\n']);
                assert(r.subrange(a.len() as int, (a.len() + b.len()) as int) =~= b);
                assert(occurs_at(r, b, a.len() as int));
            }
        },
    }
}

/// Law: installing twice leaves diwa's marker in the hook exactly once, for
/// every hook file (and when there was none).
pub proof fn law_install_twice_one_marker(existing: Option<Seq<char>>)
    ensures
        occurs_once(installed_hook(Some(installed_hook(existing))), marker()),
{
    law_install_leaves_one_marker(Some(installed_hook(existing)));
}

/// No line the scan keeps holds the marker.
proof fn lemma_scan_no_marker(ls: Seq<Seq<char>>)
    ensures
        forall|k: int| 0 <= k < scan(ls).0.len() ==> !contains(#[trigger] scan(ls).0[k], marker()),
        forall|k: int| 0 <= k < scan(ls).1.len() ==> !contains(#[trigger] scan(ls).1[k], marker()),
    decreases ls.len(),
{
    if ls.len() > 0 {
        let prev = scan(ls.drop_last());
        let line = ls.last();
        lemma_scan_no_marker(ls.drop_last());
        let st = scan(ls);
        assert(st == scan_step(prev, line));
        assert forall|k: int| 0 <= k < st.0.len() implies !contains(#[trigger] st.0[k], marker()) by {
            if k < prev.0.len() {
                assert(st.0[k] == prev.0[k]);
            }
        }
        assert forall|k: int| 0 <= k < st.1.len() implies !contains(#[trigger] st.1[k], marker()) by {
            if k < prev.1.len() {
                assert(st.1[k] == prev.1[k]);
            }
        }
    }
}

// ---------------------------------------------------------------------------
// Uninstalling after installing, for any line endings
// ---------------------------------------------------------------------------

/// The text's lines (each with a trailing `\r` dropped) joined by `\n`,
/// trailing whitespace trimmed: a text as uninstalling writes it back.
pub open spec fn kept_lines(t: Seq<char>) -> Seq<char> {
    trim_end(join(lines(t.push('\n')), seq!['\n']))
}

/// Cleaning a hook that consists of `t`, a blank line and diwa's block keeps
/// the lines of `t`.
proof fn lemma_clean_after_block_lines(t: Seq<char>)
    requires
        !contains(t, marker()),
    ensures
        cleaned_hook(t + seq!['\n', '\n'] + diwa_block() + seq!['\n']) == kept_lines(t),
        contains(t + seq!['\n', '\n'] + diwa_block() + seq!['\n'], marker()),
{
    let x = t.push('\n');
    let y = seq!['\n'];
    let z = diwa_block() + seq!['\n'];
    let whole = t + seq!['\n', '\n'] + diwa_block() + seq!['\n'];
    assert(whole =~= x + (y + z));
    lemma_lines_concat(x, y + z);
    lemma_lines_concat(y, z);
    lemma_lines_single(Seq::<char>::empty());
    assert(Seq::<char>::empty().push('\n') =~= y);
    assert(strip_cr(Seq::<char>::empty()) =~= Seq::<char>::empty());
    assert(!contains(x, marker())) by {
        lemma_no_contains_push(t, '\n', marker());
    }
    lemma_lines_no_contains(x, marker());
    let lx = lines(x);
    let a = lx + seq![Seq::<char>::empty()];
    assert forall|k: int| 0 <= k < a.len() implies !contains(#[trigger] a[k], marker()) by {
        if k < lx.len() {
            assert(a[k] == lx[k]);
        } else {
            assert(a[k] =~= Seq::<char>::empty());
            if contains(a[k], marker()) {
                let i = choose|i: int| occurs_at(a[k], marker(), i);
            }
        }
    }
    lemma_block_lines(Seq::<char>::empty());
    assert(diwa_block() + seq!['\n'] + Seq::<char>::empty() =~= z);
    let lz = lines(z);
    assert(lines_before_marker(lz) =~= Seq::<Seq<char>>::empty());
    assert(lines(whole) =~= a + lz);
    lemma_before_marker_concat(a, lz);
    assert(lines_before_marker(lines(whole)) =~= a);
    assert(lx.len() > 0) by {
        crate::text::lemma_first_index(x, '\n');
    }
    crate::lemmas::lemma_join_append(lx, Seq::<char>::empty(), seq!['\n']);
    assert(join(a, seq!['\n']) =~= join(lx, seq!['\n']).push('\n'));
    lemma_trim_end_push_ws(join(lx, seq!['\n']), '\n');
    lemma_hook_line_facts();
    assert(contains(whole, marker())) by {
        let l1 = hook_lines()[1];
        let off: int = t.len() as int + 2;
        assert(hook_lines().skip(1) =~= seq![l1] + hook_lines().skip(2));
        lemma_join_prepend(l1, hook_lines().skip(2), seq!['\n']);
        assert(whole.subrange(off, off + 7) =~= l1.subrange(0, 7));
        assert(occurs_at(whole, marker(), off));
    }
}

/// Law: uninstalling after installing keeps the hook's other content, for
/// any line endings. Installing into a hook file without a diwa block and
/// then uninstalling writes back the file's lines (trailing whitespace
/// trimmed, a `\r` at the end of a line dropped, `\n` between lines and at
/// the end), or deletes the file when only a shebang was there.
pub proof fn law_uninstall_keeps_other_lines(existing: Seq<char>)
    requires
        !contains(existing, marker()),
    ensures
        hook_cleanup(installed_hook(Some(existing))) == (if is_bare_shebang(
            kept_lines(trim_end(existing)),
        ) {
            Some(None::<Seq<char>>)
        } else {
            Some(Some(kept_lines(trim_end(existing)) + seq!['\n']))
        }),
{
    let t = trim_end(existing);
    lemma_trim_end(existing);
    lemma_no_contains_prefix(existing, t.len() as int, marker());
    lemma_clean_after_block_lines(t);
}

} // verus!
