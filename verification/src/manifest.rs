//! The registry of repos diwa is installed in: repo slug to local path.
//!
//! Used by `diwa update` to find and refresh every managed repo. The file it
//! is stored in (`repos.json`) is read and written by the caller.
use vstd::prelude::*;


verus! {

/// Slug → local path, with each slug at most once.
#[derive(Debug)]
pub struct Manifest {
    entries: Vec<(String, String)>,
}

/// The path stored for `slug`: the first entry with that slug.
pub open spec fn lookup(entries: Seq<(String, String)>, slug: Seq<char>) -> Option<Seq<char>>
    decreases entries.len(),
{
    if entries.len() == 0 {
        None
    } else if entries[0].0@ == slug {
        Some(entries[0].1@)
    } else {
        lookup(entries.drop_first(), slug)
    }
}

/// No slug occurs twice.
pub open spec fn keys_unique(entries: Seq<(String, String)>) -> bool {
    forall|i: int, j: int|
        0 <= i < j < entries.len() ==> (#[trigger] entries[i]).0@ != (#[trigger] entries[j]).0@
}

proof fn lemma_lookup_index(entries: Seq<(String, String)>, i: int)
    requires
        0 <= i < entries.len(),
        forall|j: int| 0 <= j < i ==> (#[trigger] entries[j]).0@ != entries[i].0@,
    ensures
        lookup(entries, entries[i].0@) == Some(entries[i].1@),
    decreases i,
{
    if i > 0 {
        assert forall|j: int| 0 <= j < i - 1 implies (#[trigger] entries.drop_first()[j]).0@
            != entries.drop_first()[i - 1].0@ by {
            assert(entries.drop_first()[j] == entries[j + 1]);
        }
        lemma_lookup_index(entries.drop_first(), i - 1);
    }
}

proof fn lemma_lookup_absent(entries: Seq<(String, String)>, slug: Seq<char>)
    requires
        forall|j: int| 0 <= j < entries.len() ==> (#[trigger] entries[j]).0@ != slug,
    ensures
        lookup(entries, slug) is None,
    decreases entries.len(),
{
    if entries.len() > 0 {
        assert forall|j: int| 0 <= j < entries.drop_first().len() implies (
        #[trigger] entries.drop_first()[j]).0@ != slug by {
            assert(entries.drop_first()[j] == entries[j + 1]);
        }
        lemma_lookup_absent(entries.drop_first(), slug);
    }
}

proof fn lemma_lookup_found(entries: Seq<(String, String)>, slug: Seq<char>)
    requires
        lookup(entries, slug) is Some,
    ensures
        exists|i: int|
            0 <= i < entries.len() && (#[trigger] entries[i]).0@ == slug && lookup(entries, slug)
                == Some(entries[i].1@),
    decreases entries.len(),
{
    if entries[0].0@ != slug {
        lemma_lookup_found(entries.drop_first(), slug);
        let i = choose|i: int|
            0 <= i < entries.drop_first().len() && (#[trigger] entries.drop_first()[i]).0@ == slug
                && lookup(entries.drop_first(), slug) == Some(entries.drop_first()[i].1@);
        assert(entries[i + 1] == entries.drop_first()[i]);
    } else {
        assert(entries[0].0@ == slug);
    }
}

/// With unique slugs, the path stored for a slug is that of the entry holding it.
proof fn lemma_lookup_unique(entries: Seq<(String, String)>, slug: Seq<char>)
    requires
        keys_unique(entries),
    ensures
        forall|i: int|
            0 <= i < entries.len() && (#[trigger] entries[i]).0@ == slug ==> lookup(entries, slug)
                == Some(entries[i].1@),
        (forall|i: int| 0 <= i < entries.len() ==> (#[trigger] entries[i]).0@ != slug) ==> lookup(
            entries,
            slug,
        ) is None,
{
    assert forall|i: int|
        0 <= i < entries.len() && (#[trigger] entries[i]).0@ == slug implies lookup(entries, slug)
        == Some(entries[i].1@) by {
        lemma_lookup_index(entries, i);
    }
    if forall|i: int| 0 <= i < entries.len() ==> (#[trigger] entries[i]).0@ != slug {
        lemma_lookup_absent(entries, slug);
    }
}

/// The map a list of (slug, path) pairs stands for: each slug to the path
/// of its first pair.
pub open spec fn pairs_map(entries: Seq<(String, String)>) -> Map<Seq<char>, Seq<char>> {
    Map::new(
        |k: Seq<char>| lookup(entries, k) is Some,
        |k: Seq<char>| lookup(entries, k)->0,
    )
}

impl Manifest {
    #[verifier::type_invariant]
    spec fn inv(self) -> bool {
        keys_unique(self.entries@)
    }

    /// The manifest as a map from slug to path.
    pub closed spec fn map(&self) -> Map<Seq<char>, Seq<char>> {
        pairs_map(self.entries@)
    }

    /// An empty manifest.
    pub fn new() -> (m: Manifest)
        ensures
            m.map() == Map::<Seq<char>, Seq<char>>::empty(),
    {
        let m = Manifest { entries: Vec::new() };
        assert(m.map() =~= Map::<Seq<char>, Seq<char>>::empty());
        m
    }

    /// Number of registered repos.
    pub fn len(&self) -> (n: usize)
        ensures
            n == self.map().dom().len(),
    {
        proof {
            use_type_invariant(self);
            self.lemma_dom_len();
        }
        self.entries.len()
    }

    proof fn lemma_dom_len(&self)
        requires
            keys_unique(self.entries@),
        ensures
            self.map().dom().finite(),
            self.map().dom().len() == self.entries@.len(),
        decreases self.entries@.len(),
    {
        let e = self.entries@;
        let keys = e.map_values(|p: (String, String)| p.0@);
        assert forall|i: int, j: int| 0 <= i < j < keys.len() implies keys[i] != keys[j] by {
            assert(keys[i] == e[i].0@);
            assert(keys[j] == e[j].0@);
        }
        assert(keys.no_duplicates());
        keys.unique_seq_to_set();
        assert forall|k: Seq<char>| self.map().dom().contains(k) <==> keys.to_set().contains(k) by {
            if lookup(e, k) is Some {
                lemma_lookup_found(e, k);
                let i = choose|i: int|
                    0 <= i < e.len() && (#[trigger] e[i]).0@ == k && lookup(e, k) == Some(e[i].1@);
                assert(keys[i] == k);
            }
            if keys.to_set().contains(k) {
                let i = choose|i: int| 0 <= i < keys.len() && keys[i] == k;
                lemma_lookup_unique(e, k);
                assert(e[i].0@ == k);
            }
        }
        assert(self.map().dom() =~= keys.to_set());
    }

    /// The path registered for `slug`.
    pub fn get(&self, slug: &str) -> (r: Option<String>)
        ensures
            match r {
                Some(p) => self.map().dom().contains(slug@) && self.map()[slug@] == p@,
                None => !self.map().dom().contains(slug@),
            },
    {
        proof {
            use_type_invariant(self);
        }
        match self.index_of(slug) {
            Some(i) => {
                proof {
                    lemma_lookup_unique(self.entries@, slug@);
                }
                Some(self.entries[i].1.clone())
            },
            None => {
                proof {
                    lemma_lookup_unique(self.entries@, slug@);
                }
                None
            },
        }
    }

    fn index_of(&self, slug: &str) -> (r: Option<usize>)
        ensures
            match r {
                Some(i) => i < self.entries@.len() && self.entries@[i as int].0@ == slug@,
                None => forall|j: int|
                    0 <= j < self.entries@.len() ==> (#[trigger] self.entries@[j]).0@ != slug@,
            },
    {
        let mut i: usize = 0;
        while i < self.entries.len()
            invariant
                i <= self.entries.len(),
                forall|j: int| 0 <= j < i ==> (#[trigger] self.entries@[j]).0@ != slug@,
            decreases self.entries.len() - i,
        {
            if crate::text::eq_str(self.entries[i].0.as_str(), slug) {
                return Some(i);
            }
            i = i + 1;
        }
        None
    }

    /// The registered repos as (slug, path) pairs, each slug once.
    pub fn entries(&self) -> (r: &Vec<(String, String)>)
        ensures
            forall|i: int|
                0 <= i < r@.len() ==> self.map().dom().contains((#[trigger] r@[i]).0@)
                    && self.map()[r@[i].0@] == r@[i].1@,
            forall|k: Seq<char>|
                #[trigger] self.map().dom().contains(k) ==> exists|i: int|
                    0 <= i < r@.len() && (#[trigger] r@[i]).0@ == k,
            keys_unique(r@),
    {
        proof {
            use_type_invariant(self);
            lemma_lookup_unique(self.entries@, Seq::<char>::empty());
            assert forall|i: int| 0 <= i < self.entries@.len() implies self.map().dom().contains(
                (#[trigger] self.entries@[i]).0@,
            ) && self.map()[self.entries@[i].0@] == self.entries@[i].1@ by {
                lemma_lookup_unique(self.entries@, self.entries@[i].0@);
            }
            assert forall|k: Seq<char>| #[trigger] self.map().dom().contains(k) implies exists|i: int|
                0 <= i < self.entries@.len() && (#[trigger] self.entries@[i]).0@ == k by {
                lemma_lookup_found(self.entries@, k);
            }
        }
        &self.entries
    }
}

fn copy_str(s: &String) -> (r: String)
    ensures
        r@ == s@,
{
    s.clone()
}

/// Add a repo to the manifest (replacing the path of a slug already there).
pub fn register_repo(manifest: &mut Manifest, slug: &str, local_path: &str)
    ensures
        final(manifest).map() == old(manifest).map().insert(slug@, local_path@),
{
    proof {
        use_type_invariant(&*manifest);
    }
    let ghost old_e = manifest.entries@;
    let pos = manifest.index_of(slug);
    let mut out: Vec<(String, String)> = Vec::new();
    let mut i: usize = 0;
    while i < manifest.entries.len()
        invariant
            i <= manifest.entries.len(),
            manifest.entries@ == old_e,
            keys_unique(old_e),
            out@.len() == i,
            forall|j: int| 0 <= j < i ==> (#[trigger] out@[j]).0@ == old_e[j].0@,
            forall|j: int|
                0 <= j < i ==> (#[trigger] out@[j]).1@ == (if pos == Some(j as usize) {
                    local_path@
                } else {
                    old_e[j].1@
                }),
        decreases manifest.entries.len() - i,
    {
        let k = copy_str(&manifest.entries[i].0);
        let v = if pos == Some(i) {
            String::from_str(local_path)
        } else {
            copy_str(&manifest.entries[i].1)
        };
        out.push((k, v));
        i = i + 1;
    }
    let ghost replaced = out@;
    if pos.is_none() {
        out.push((String::from_str(slug), String::from_str(local_path)));
    }
    proof {
        let ne = out@;
        assert(keys_unique(ne)) by {
            assert forall|a: int, b: int| 0 <= a < b < ne.len() implies (#[trigger] ne[a]).0@ != (
            #[trigger] ne[b]).0@ by {
                if b < old_e.len() {
                    assert(ne[a].0@ == old_e[a].0@);
                    assert(ne[b].0@ == old_e[b].0@);
                } else {
                    assert(ne[a].0@ == old_e[a].0@);
                }
            }
        }
        lemma_lookup_unique(ne, slug@);
        lemma_lookup_unique(old_e, slug@);
        assert forall|k: Seq<char>| k != slug@ implies lookup(ne, k) == lookup(old_e, k) by {
            lemma_lookup_unique(ne, k);
            lemma_lookup_unique(old_e, k);
            if lookup(old_e, k) is Some {
                lemma_lookup_found(old_e, k);
                let i = choose|i: int|
                    0 <= i < old_e.len() && (#[trigger] old_e[i]).0@ == k && lookup(old_e, k)
                        == Some(old_e[i].1@);
                assert(ne[i].0@ == k);
            } else {
                assert forall|j: int| 0 <= j < ne.len() implies (#[trigger] ne[j]).0@ != k by {
                    if j < old_e.len() {
                        assert(ne[j].0@ == old_e[j].0@);
                        if old_e[j].0@ == k {
                            lemma_lookup_index(old_e, j);
                        }
                    }
                }
            }
        }
        match pos {
            Some(p) => {
                assert(ne[p as int].0@ == slug@);
            },
            None => {
                assert(ne[old_e.len() as int].0@ == slug@);
            },
        }
    }
    manifest.entries = out;
    proof {
        assert(manifest.map() =~= old(manifest).map().insert(slug@, local_path@));
    }
}

/// Remove a repo from the manifest.
pub fn unregister_repo(manifest: &mut Manifest, slug: &str)
    ensures
        final(manifest).map() == old(manifest).map().remove(slug@),
{
    proof {
        use_type_invariant(&*manifest);
    }
    let ghost old_e = manifest.entries@;
    let mut out: Vec<(String, String)> = Vec::new();
    let mut i: usize = 0;
    let ghost mut idx: Seq<int> = seq![];
    while i < manifest.entries.len()
        invariant
            i <= manifest.entries.len(),
            manifest.entries@ == old_e,
            keys_unique(old_e),
            idx.len() == out@.len(),
            forall|j: int| 0 <= j < idx.len() ==> 0 <= #[trigger] idx[j] < i,
            forall|a: int, b: int| 0 <= a < b < idx.len() ==> #[trigger] idx[a] < #[trigger] idx[b],
            forall|j: int|
                0 <= j < out@.len() ==> (#[trigger] out@[j]).0@ == old_e[idx[j]].0@ && out@[j].1@
                    == old_e[idx[j]].1@ && out@[j].0@ != slug@,
            forall|j: int|
                0 <= j < i && old_e[j].0@ != slug@ ==> exists|m: int|
                    0 <= m < idx.len() && #[trigger] idx[m] == j,
        decreases manifest.entries.len() - i,
    {
        let ghost old_idx = idx;
        if !crate::text::eq_str(manifest.entries[i].0.as_str(), slug) {
            let k = copy_str(&manifest.entries[i].0);
            let v = copy_str(&manifest.entries[i].1);
            out.push((k, v));
            proof {
                idx = idx.push(i as int);
                assert(idx[idx.len() - 1] == i);
            }
        }
        proof {
            assert forall|j: int| 0 <= j < i + 1 && old_e[j].0@ != slug@ implies exists|m: int|
                0 <= m < idx.len() && #[trigger] idx[m] == j by {
                if j < i {
                    let m = choose|m: int| 0 <= m < old_idx.len() && #[trigger] old_idx[m] == j;
                    assert(idx[m] == old_idx[m]);
                } else {
                    assert(idx[idx.len() - 1] == j);
                }
            }
        }
        i = i + 1;
    }
    proof {
        let ne = out@;
        assert(keys_unique(ne)) by {
            assert forall|a: int, b: int| 0 <= a < b < ne.len() implies (#[trigger] ne[a]).0@ != (
            #[trigger] ne[b]).0@ by {
                assert(idx[a] < idx[b]);
            }
        }
        assert forall|k: Seq<char>| lookup(ne, k) == (if k == slug@ {
            None
        } else {
            lookup(old_e, k)
        }) by {
            lemma_lookup_unique(ne, k);
            lemma_lookup_unique(old_e, k);
            if k == slug@ {
            } else if lookup(old_e, k) is Some {
                lemma_lookup_found(old_e, k);
                let i = choose|i: int|
                    0 <= i < old_e.len() && (#[trigger] old_e[i]).0@ == k && lookup(old_e, k)
                        == Some(old_e[i].1@);
                let m = choose|m: int| 0 <= m < idx.len() && #[trigger] idx[m] == i;
                assert(ne[m].0@ == k);
            } else {
                assert forall|j: int| 0 <= j < ne.len() implies (#[trigger] ne[j]).0@ != k by {
                    if ne[j].0@ == k {
                        lemma_lookup_index(old_e, idx[j]);
                    }
                }
            }
        }
    }
    manifest.entries = out;
    proof {
        assert(manifest.map() =~= old(manifest).map().remove(slug@));
    }
}

/// What `serde_json::from_str` gives for a text read as a JSON object of
/// strings (slug to path): the object as a map, or `None` when the text is
/// not such an object.
pub uninterp spec fn json_string_map(text: Seq<char>) -> Option<Map<Seq<char>, Seq<char>>>;

/// Parses a text as a JSON object whose values are strings.
/// Trusted: `serde_json::from_str::<HashMap<String, String>>`, with its error
/// dropped; the map it gives depends on the text alone and is named
/// `json_string_map`. Its pairs come out in the map's own order, each key once.
#[verifier::external_body]
fn parse_string_map(text: &str) -> (r: Option<Vec<(String, String)>>)
    ensures
        match r {
            Some(v) => keys_unique(v@) && json_string_map(text@) == Some(pairs_map(v@)),
            None => json_string_map(text@) is None,
        },
{
    serde_json::from_str::<std::collections::HashMap<String, String>>(text).ok().map(
        |m| m.into_iter().collect(),
    )
}

/// The manifest stored in a `repos.json` text: the JSON object's slugs and
/// paths, or an empty manifest when the text is not such an object.
pub fn manifest_from_json(text: &str) -> (m: Manifest)
    ensures
        m.map() == match json_string_map(text@) {
            Some(mp) => mp,
            None => Map::<Seq<char>, Seq<char>>::empty(),
        },
{
    match parse_string_map(text) {
        Some(v) => Manifest { entries: v },
        None => Manifest::new(),
    }
}

/// Law: a registered repo is found at the path it was registered with, and
/// registering changes no other entry.
pub proof fn law_register_then_lookup(
    m: Map<Seq<char>, Seq<char>>,
    slug: Seq<char>,
    path: Seq<char>,
    other: Seq<char>,
)
    requires
        other != slug,
    ensures
        m.insert(slug, path).dom().contains(slug),
        m.insert(slug, path)[slug] == path,
        m.insert(slug, path).dom().contains(other) == m.dom().contains(other),
        m.insert(slug, path)[other] == m[other],
{
}

/// Law: unregistering a repo that was just registered gives back the manifest
/// as it was, when the repo was not registered before.
pub proof fn law_unregister_undoes_register(
    m: Map<Seq<char>, Seq<char>>,
    slug: Seq<char>,
    path: Seq<char>,
)
    requires
        !m.dom().contains(slug),
    ensures
        m.insert(slug, path).remove(slug) == m,
{
    assert(m.insert(slug, path).remove(slug) =~= m);
}

/// Law: registering the same repo twice is the same as registering it once.
pub proof fn law_register_idempotent(m: Map<Seq<char>, Seq<char>>, slug: Seq<char>, path: Seq<char>)
    ensures
        m.insert(slug, path).insert(slug, path) == m.insert(slug, path),
{
    assert(m.insert(slug, path).insert(slug, path) =~= m.insert(slug, path));
}

} // verus!
