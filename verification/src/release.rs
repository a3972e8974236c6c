//! Releases: reading the latest release tag from the GitHub API answer,
//! deciding whether it is newer than the running version, and naming the
//! archive built for this platform.
use vstd::prelude::*;
use crate::text::{first_containing, first_line_containing, from_chars, lemma_splitn_prefix, lines, push_str, split, splitn_chars, to_chars, trim, trim_chars};

verus! {

/// The field of the API answer that names the release.
pub const TAG_FIELD: &'static str = "\"tag_name\"";

/// The fourth piece of a line cut at `"` (`line.split('"').nth(3)`): in
/// `  "tag_name": "v0.5.0",` that is the tag.
pub open spec fn tag_of_line(line: Seq<char>) -> Option<Seq<char>> {
    let pieces = split(line, seq!['"']);
    if pieces.len() > 3 {
        Some(pieces[3])
    } else {
        None
    }
}

/// The release tag named on the first line of the answer that holds the
/// `"tag_name"` field.
pub open spec fn release_tag_of(body: Seq<char>) -> Option<Seq<char>> {
    match first_containing(lines(body), TAG_FIELD@) {
        Some(l) => tag_of_line(l),
        None => None,
    }
}

/// The latest release tag in the API answer, if it names one.
pub fn release_tag(body: &str) -> (r: Option<String>)
    ensures
        crate::text::opt_view(r) == release_tag_of(body@),
{
    let b = to_chars(body);
    let field = to_chars(TAG_FIELD);
    match first_line_containing(&b, &field) {
        None => None,
        Some(line) => {
            let quote = vec!['"'];
            proof {
                reveal_strlit("\"tag_name\"");
                assert(quote@ =~= seq!['"']);
                crate::text::lemma_first_containing(lines(b@), field@);
                let i = choose|i: int| crate::text::occurs_at(line@, field@, i);
                assert(line@.len() >= 5);
                lemma_splitn_prefix(line@, quote@, 0, 5, (line@.len() + 2) as nat, 3);
            }
            let pieces = splitn_chars(&line, &quote, 5);
            if pieces.len() > 3 {
                Some(from_chars(&pieces[3]))
            } else {
                None
            }
        },
    }
}

/// A version from its tag: a leading `v` is dropped.
pub open spec fn version_of(tag: Seq<char>) -> Seq<char> {
    if tag.len() > 0 && tag[0] == 'v' {
        tag.drop_first()
    } else {
        tag
    }
}

/// The version a release tag names (`tag.strip_prefix('v').unwrap_or(tag)`).
pub fn tag_version(tag: &str) -> (r: String)
    ensures
        r@ == version_of(tag@),
{
    let t = to_chars(tag);
    if t.len() > 0 && t[0] == 'v' {
        let rest = crate::text::slice_chars(&t, 1, t.len());
        assert(rest@ =~= t@.drop_first());
        from_chars(&rest)
    } else {
        from_chars(&t)
    }
}

/// The latest version, when it differs from the running one.
pub open spec fn newer_of(latest: Seq<char>, current: Seq<char>) -> Option<Seq<char>> {
    if latest != current {
        Some(latest)
    } else {
        None
    }
}

/// The version to offer as an upgrade: the latest one, unless it is the
/// running one.
pub fn newer_release(latest: &str, current: &str) -> (r: Option<String>)
    ensures
        crate::text::opt_view(r) == newer_of(latest@, current@),
{
    if crate::text::eq_str(latest, current) {
        None
    } else {
        let l = to_chars(latest);
        Some(from_chars(&l))
    }
}

/// The version to offer from a cached check: the cached text without
/// surrounding whitespace, unless it is empty or the running version.
pub open spec fn cached_newer_of(cached: Seq<char>, current: Seq<char>) -> Option<Seq<char>> {
    if trim(cached).len() > 0 {
        newer_of(trim(cached), current)
    } else {
        None
    }
}

/// The version to offer from the cached result of an earlier check.
pub fn cached_release(cached: &str, current: &str) -> (r: Option<String>)
    ensures
        crate::text::opt_view(r) == cached_newer_of(cached@, current@),
{
    let c = to_chars(cached);
    let t = trim_chars(&c);
    if t.len() == 0 {
        return None;
    }
    let latest = from_chars(&t);
    newer_release(latest.as_str(), current)
}

/// The build target of the release archive for a CPU architecture and an
/// operating system, when one is published.
pub open spec fn target_of(arch: Seq<char>, os: Seq<char>) -> Option<Seq<char>> {
    if arch == "x86_64"@ && os == "linux"@ {
        Some("x86_64-unknown-linux-gnu"@)
    } else if arch == "aarch64"@ && os == "linux"@ {
        Some("aarch64-unknown-linux-gnu"@)
    } else if arch == "aarch64"@ && os == "macos"@ {
        Some("aarch64-apple-darwin"@)
    } else {
        None
    }
}

/// The build target of the release archive for this platform.
pub fn release_target(arch: &str, os: &str) -> (r: Option<&'static str>)
    ensures
        match r {
            Some(t) => target_of(arch@, os@) == Some(t@),
            None => target_of(arch@, os@) is None,
        },
{
    let linux = crate::text::eq_str(os, "linux");
    if crate::text::eq_str(arch, "x86_64") && linux {
        Some("x86_64-unknown-linux-gnu")
    } else if crate::text::eq_str(arch, "aarch64") && linux {
        Some("aarch64-unknown-linux-gnu")
    } else if crate::text::eq_str(arch, "aarch64") && crate::text::eq_str(os, "macos") {
        Some("aarch64-apple-darwin")
    } else {
        None
    }
}

/// Where the release archive for a tag and target is downloaded from.
pub open spec fn release_url_of(tag: Seq<char>, target: Seq<char>) -> Seq<char> {
    "https://github.com/Dorky-Robot/diwa/releases/download/"@ + tag + "/diwa-"@ + target
        + ".tar.gz"@
}

/// The download address of the release archive.
pub fn release_url(tag: &str, target: &str) -> (r: String)
    ensures
        r@ == release_url_of(tag@, target@),
{
    let mut r = String::new();
    push_str(&mut r, "https://github.com/Dorky-Robot/diwa/releases/download/");
    push_str(&mut r, tag);
    push_str(&mut r, "/diwa-");
    push_str(&mut r, target);
    push_str(&mut r, ".tar.gz");
    r
}

} // verus!
