//! Stale `diwa` binaries that shadow the current one on `$PATH`.
//!
//! Git hooks run whichever `diwa` comes first on PATH; an old binary there
//! silently breaks indexing. The caller walks PATH and asks the questions
//! below in order; this module decides what each answer means.
use vstd::prelude::*;
use crate::text::{contains, contains_chars, push_str, to_chars};

verus! {

/// Outcome of scanning PATH for a `diwa` binary that shadows the current one.
#[derive(Debug, PartialEq, Eq)]
pub enum ShadowRepair {
    /// Current binary is first on PATH — nothing to do.
    Clean,
    /// A stale shadow was moved aside so hooks will resolve to the new binary.
    Repaired { shadow: String, backup: String },
    /// Something shadows us but we won't touch it (system path, or it isn't
    /// obviously stale). Caller should leave a breadcrumb for the user.
    Warned { shadow: String, reason: &'static str },
}

/// Why a shadow that is a symlink is left alone.
pub const REASON_SYMLINK: &'static str = "shadow is a symlink — remove manually";
/// Why a shadow that knows `enqueue` is left alone.
pub const REASON_NOT_STALE: &'static str = "shadowing binary accepts `enqueue` — not stale";
/// Why a stale shadow outside the home directory is left alone.
pub const REASON_OUTSIDE_HOME: &'static str = "outside $HOME — remove manually";
/// Why a stale shadow could not be repaired.
pub const REASON_RENAME_FAILED: &'static str = "could not rename shadow aside";

/// What to do with a `diwa` found in a PATH directory, before probing it.
#[derive(Debug, PartialEq, Eq)]
pub enum FirstLook {
    /// A symlink: warn and go on to the next directory.
    WarnSymlink,
    /// The current binary itself: stop scanning.
    ReachedSelf,
    /// Something else: probe whether it is stale.
    Probe,
}

/// Decide what to do with a found binary from whether it is a symlink and
/// whether it resolves to the current binary; symlinks are never followed.
pub fn first_look(is_symlink: bool, is_current: bool) -> (r: FirstLook)
    ensures
        r == (if is_symlink {
            FirstLook::WarnSymlink
        } else if is_current {
            FirstLook::ReachedSelf
        } else {
            FirstLook::Probe
        }),
{
    if is_symlink {
        FirstLook::WarnSymlink
    } else if is_current {
        FirstLook::ReachedSelf
    } else {
        FirstLook::Probe
    }
}

/// What to do with a probed shadow.
#[derive(Debug, PartialEq, Eq)]
pub enum AfterProbe {
    /// It accepts `enqueue`: warn, it is not stale.
    WarnNotStale,
    /// Stale but outside the home directory: warn, do not touch it.
    WarnOutsideHome,
    /// Stale and under the home directory: rename it aside.
    Rename,
}

/// Decide what to do with a probed shadow: only stale binaries under the home
/// directory are renamed.
pub fn after_probe(is_stale: bool, in_home: bool) -> (r: AfterProbe)
    ensures
        r == (if !is_stale {
            AfterProbe::WarnNotStale
        } else if !in_home {
            AfterProbe::WarnOutsideHome
        } else {
            AfterProbe::Rename
        }),
{
    if !is_stale {
        AfterProbe::WarnNotStale
    } else if !in_home {
        AfterProbe::WarnOutsideHome
    } else {
        AfterProbe::Rename
    }
}

/// A stale binary, judged by the probe: one that ran `enqueue --help` and failed while
/// complaining about an unrecognized subcommand is stale.
pub open spec fn stale_by_output(success: bool, output: Seq<char>) -> bool {
    !success && (contains(output, "unrecognized subcommand"@) || contains(output, "unrecognized"@))
}

/// Whether the probe's result shows a stale binary (pre-0.4.0 diwa does not
/// know `enqueue`; newer versions print usage and exit 0).
pub fn is_stale_output(success: bool, output: &str) -> (r: bool)
    ensures
        r == stale_by_output(success, output@),
{
    if success {
        return false;
    }
    let o = to_chars(output);
    let p1 = to_chars("unrecognized subcommand");
    let p2 = to_chars("unrecognized");
    contains_chars(&o, &p1) || contains_chars(&o, &p2)
}

/// The scan's results once PATH is exhausted or the current binary was
/// reached: `Clean` when nothing was found on the way.
pub fn finish_scan(results: Vec<ShadowRepair>) -> (r: Vec<ShadowRepair>)
    ensures
        results@.len() == 0 ==> r@ == seq![ShadowRepair::Clean],
        results@.len() > 0 ==> r@ == results@,
{
    if results.len() == 0 {
        let mut r = Vec::new();
        r.push(ShadowRepair::Clean);
        r
    } else {
        results
    }
}

// ---------------------------------------------------------------------------
// The backup name
// ---------------------------------------------------------------------------

/// The final component of a path, as `Path::file_name` gives it (lossily
/// decoded), or `None` when the path has none (it ends in `..`, or is a root
/// or empty).
pub uninterp spec fn std_file_name(path: Seq<char>) -> Option<Seq<char>>;

/// The path `Path::with_file_name` gives: the path with its final component
/// replaced by `name` (or `name` pushed, when there is no final component).
pub uninterp spec fn std_with_file_name(path: Seq<char>, name: Seq<char>) -> Seq<char>;

/// The final component of a path.
/// Trusted: `Path::file_name`, its result decoded with `to_string_lossy`;
/// the result depends on the path alone and is named `std_file_name`.
#[verifier::external_body]
fn file_name_of(path: &str) -> (r: Option<String>)
    ensures
        crate::text::opt_view(r) == std_file_name(path@),
{
    std::path::Path::new(path).file_name().map(|n| n.to_string_lossy().into_owned())
}

/// A path with its final component replaced.
/// Trusted: `Path::with_file_name`, its result decoded with
/// `to_string_lossy` (both inputs are text, so nothing is lost); the result
/// depends on the two arguments alone and is named `std_with_file_name`.
#[verifier::external_body]
fn with_file_name(path: &str, name: &str) -> (r: String)
    ensures
        r@ == std_with_file_name(path@, name@),
{
    std::path::Path::new(path).with_file_name(name).to_string_lossy().into_owned()
}

/// The backup file name for a shadow whose final component is `name`: that
/// name (`diwa` when there is none) with `.stale-bak` appended.
pub open spec fn backup_name(name: Option<Seq<char>>) -> Seq<char> {
    let base = match name {
        Some(n) => n,
        None => "diwa"@,
    };
    base + ".stale-bak"@
}

/// The path a stale shadow is renamed to: the same path with its file name
/// (or `diwa`, when it has none) followed by `.stale-bak`.
pub fn stale_backup_path(shadow: &str) -> (r: String)
    ensures
        r@ == std_with_file_name(shadow@, backup_name(std_file_name(shadow@))),
{
    let mut name = match file_name_of(shadow) {
        Some(n) => n,
        None => String::from_str("diwa"),
    };
    push_str(&mut name, ".stale-bak");
    proof {
        reveal_strlit("diwa");
        reveal_strlit(".stale-bak");
        assert(name@ =~= backup_name(std_file_name(shadow@)));
    }
    with_file_name(shadow, name.as_str())
}

} // verus!
