//! The module loader set of the bundler: WICG-style import maps with
//! longest-prefix rewriting, the filesystem loader's candidate search and
//! JSON wrapping, the URL loader's resolution and cache addressing, the
//! top-level loader dispatch, and the bundler's module bookkeeping
//! (`ModuleMap`, `EsModule` status propagation).
//!
//! The loaders' decisions are verified over explicit inputs: the filesystem
//! loader consults a snapshot of the files it may read (a map from path to
//! contents), and the URL loader plans what the embedding has to fetch.

use vstd::prelude::*;
use vstd::string::StrSliceExecFns;
use vstd::string::StringExecFns;
use crate::error::AppError;
use crate::paths::{spec_extension, spec_has_extension, spec_with_extension, spec_join,
    spec_normalize, spec_parent, spec_is_windows_path, spec_is_relative_path, extension_of,
    has_extension, with_extension, join_path, normalize_path, parent_of, is_windows_path,
    is_relative_path};
use sha::sha1::Sha1;
use sha::utils::{Digest, DigestExt};
use crate::strmap::StrMap;
use crate::strutil::{concat_str, ends_with_str, starts_with_str, str_eq_str};

verus! {

/// The import mappings a JSON document holds under its `imports` key, when
/// that text is well-formed: an object whose values are all strings. The
/// pairs are a function of the text alone; the order serde_json hands them
/// out in is not relied on.
pub uninterp spec fn spec_imports_of(text: Seq<char>) -> Option<Map<Seq<char>, Seq<char>>>;

/// Relies on serde_json: parses the document, takes the object under
/// `imports`, and hands its entries out as pairs. Returns `None` exactly on
/// malformed JSON, a missing or non-object `imports`, or a non-string value.
#[verifier::external_body]
fn parse_imports_json(text: &str) -> (r: Option<Vec<(String, String)>>)
    ensures
        (r is Some) == (spec_imports_of(text@) is Some),
        r matches Some(v) ==> {
            let m = spec_imports_of(text@).unwrap();
            &&& forall|i: int|
                0 <= i < v.deep_view().len() ==> m.contains_pair(
                    (#[trigger] v.deep_view()[i]).0,
                    v.deep_view()[i].1,
                )
            &&& forall|k: Seq<char>|
                m.dom().contains(k) ==> exists|i: int|
                    0 <= i < v.deep_view().len() && #[trigger] v.deep_view()[i] == (k, m[k])
        },
{
    let value: serde_json::Value = serde_json::from_str(text).ok()?;
    let imports = value.get("imports")?;
    let obj = imports.as_object()?;
    let mut out: Vec<(String, String)> = Vec::with_capacity(obj.len());
    for (k, v) in obj {
        out.push((k.clone(), v.as_str()?.to_string()));
    }
    Some(out)
}

/// Key/value entries of a WICG import map.
pub struct ImportMap {
    map: Vec<(String, String)>,
}

/// The entry the lookup picks for `s`: among the entries whose key is a
/// prefix of `s`, one with the longest key, and among those the one that
/// comes first.
pub open spec fn spec_best_entry(entries: Seq<(Seq<char>, Seq<char>)>, s: Seq<char>) -> Option<
    int,
>
    decreases entries.len(),
{
    if entries.len() == 0 {
        None
    } else {
        let prev = spec_best_entry(entries.drop_last(), s);
        let i = entries.len() - 1;
        if entries[i].0.is_prefix_of(s) {
            match prev {
                None => Some(i),
                Some(j) => if entries[i].0.len() > entries[j].0.len() {
                    Some(i)
                } else {
                    Some(j)
                },
            }
        } else {
            prev
        }
    }
}

/// A target beginning with `./` is an alias for the working directory.
pub open spec fn spec_rewrite_target(target: Seq<char>, cwd: Seq<char>) -> Seq<char> {
    if "./"@.is_prefix_of(target) {
        cwd + target.skip(1)
    } else {
        target
    }
}

/// The whole lookup: the best entry's target replaces its key. The one
/// exception is the extension-less-import rule: a specifier that carries an
/// extension, and that equals its matched key with that extension applied,
/// is not rewritten.
pub open spec fn spec_lookup(
    entries: Seq<(Seq<char>, Seq<char>)>,
    specifier: Seq<char>,
    cwd: Seq<char>,
) -> Option<Seq<char>> {
    match spec_best_entry(entries, specifier) {
        None => None,
        Some(j) => {
            let base = entries[j].0;
            let target = spec_rewrite_target(entries[j].1, cwd);
            let rewritten = target + specifier.skip(base.len() as int);
            match spec_extension(specifier) {
                Some(ext) => if specifier == spec_with_extension(base, ext) {
                    None
                } else {
                    Some(rewritten)
                },
                None => Some(rewritten),
            }
        },
    }
}

/// The picked entry exists, matches, and its key is the longest among the
/// matching keys; when no entry matches, none is picked.
pub proof fn lemma_best_entry_longest(entries: Seq<(Seq<char>, Seq<char>)>, s: Seq<char>)
    ensures
        spec_best_entry(entries, s) matches Some(j) ==> {
            &&& 0 <= j < entries.len()
            &&& entries[j].0.is_prefix_of(s)
            &&& forall|i: int|
                0 <= i < entries.len() && (#[trigger] entries[i].0).is_prefix_of(s)
                    ==> entries[i].0.len() <= entries[j].0.len()
        },
        spec_best_entry(entries, s) is None ==> forall|i: int|
            0 <= i < entries.len() ==> !(#[trigger] entries[i].0).is_prefix_of(s),
    decreases entries.len(),
{
    if entries.len() > 0 {
        lemma_best_entry_longest(entries.drop_last(), s);
        assert(forall|i: int|
            0 <= i < entries.len() - 1 ==> #[trigger] entries[i] == entries.drop_last()[i]);
    }
}

/// Longest prefix wins: when one key is a strict prefix of another and a
/// specifier starts with the longer one, the lookup never uses the shorter
/// key's entry — the entry it picks has a key at least as long as the
/// longer of the two.
pub proof fn lemma_longest_prefix_wins(
    entries: Seq<(Seq<char>, Seq<char>)>,
    s: Seq<char>,
    i: int,
    j: int,
)
    requires
        0 <= i < entries.len(),
        0 <= j < entries.len(),
        entries[i].0.is_prefix_of(entries[j].0),
        entries[i].0.len() < entries[j].0.len(),
        entries[j].0.is_prefix_of(s),
    ensures
        spec_best_entry(entries, s) matches Some(c),
        spec_best_entry(entries, s) matches Some(c) ==> entries[c].0.len() >= entries[j].0.len()
            && c != i,
{
    lemma_best_entry_longest(entries, s);
    if spec_best_entry(entries, s) is None {
        assert(!entries[j].0.is_prefix_of(s));
    }
    let c = spec_best_entry(entries, s).unwrap();
    assert(entries[j].0.is_prefix_of(s));
    assert(entries[c].0.len() >= entries[j].0.len());
    assert(entries[i].0.len() < entries[j].0.len());
}

impl ImportMap {
    /// The entries, as character sequences, in the order they are scanned.
    pub closed spec fn entries(&self) -> Seq<(Seq<char>, Seq<char>)> {
        self.map.deep_view()
    }

    /// Reads an import map from JSON text. Fails exactly when the text is
    /// malformed or `imports` is missing, not an object, or holds a
    /// non-string value.
    pub fn parse_from_json(text: &str) -> (r: Result<ImportMap, AppError>)
        ensures
            match r {
                Ok(im) => spec_imports_of(text@) matches Some(m) && {
                    &&& forall|i: int|
                        0 <= i < im.entries().len() ==> m.contains_pair(
                            (#[trigger] im.entries()[i]).0,
                            im.entries()[i].1,
                        )
                    &&& forall|k: Seq<char>|
                        m.dom().contains(k) ==> exists|i: int|
                            0 <= i < im.entries().len() && #[trigger] im.entries()[i] == (k, m[k])
                },
                Err(e) => spec_imports_of(text@) is None && (e matches
                    AppError::ConfigParseFailed(msg) && msg@ == text@),
            },
    {
        match parse_imports_json(text) {
            Some(v) => {
                let ghost dv = v.deep_view();
                let im = ImportMap { map: v };
                proof {
                    assert(im.entries() == dv);
                    let m = spec_imports_of(text@).unwrap();
                    assert forall|k: Seq<char>| m.dom().contains(k) implies exists|i: int|
                        0 <= i < im.entries().len() && #[trigger] im.entries()[i] == (k, m[k]) by {
                        let i = choose|i: int| 0 <= i < dv.len() && #[trigger] dv[i] == (k, m[k]);
                        assert(im.entries()[i] == (k, m[k]));
                    }
                    assert forall|i: int| 0 <= i < im.entries().len() implies m.contains_pair(
                        (#[trigger] im.entries()[i]).0,
                        im.entries()[i].1,
                    ) by {
                        assert(dv[i] == im.entries()[i]);
                        assert(m.contains_pair(dv[i].0, dv[i].1));
                    }
                }
                Ok(im)
            },
            None => Err(AppError::ConfigParseFailed(String::from_str(text))),
        }
    }

    /// Rewrites a specifier against the map: the longest matching key's
    /// target replaces that key, a `./` target is rooted at `cwd`, and a
    /// specifier with an extension that only differs from its key by that
    /// extension is left alone.
    pub fn lookup(&self, specifier: &str, cwd: &str) -> (r: Option<String>)
        ensures
            match spec_lookup(self.entries(), specifier@, cwd@) {
                Some(t) => r matches Some(x) && x@ == t,
                None => r is None,
            },
    {
        let ghost ev = self.entries();
        let n: usize = self.map.len();
        let mut best: Option<usize> = None;
        let mut i: usize = 0;
        proof {
            assert(ev.take(0) =~= Seq::empty());
        }
        while i < n
            invariant
                0 <= i <= n,
                n == ev.len(),
                n == self.map@.len(),
                ev == self.entries(),
                match best {
                    Some(j) => j < i && spec_best_entry(ev.take(i as int), specifier@) == Some(
                        j as int,
                    ),
                    None => spec_best_entry(ev.take(i as int), specifier@) is None,
                },
            decreases n - i,
        {
            proof {
                assert(ev[i as int] == (self.map@[i as int].0@, self.map@[i as int].1@));
            }
            let matches_here: bool = starts_with_str(specifier, self.map[i].0.as_str());
            if matches_here {
                match best {
                    None => {
                        best = Some(i);
                    },
                    Some(j) => {
                        proof {
                            assert(ev[j as int] == (self.map@[j as int].0@, self.map@[j as int].1@));
                        }
                        if self.map[i].0.as_str().unicode_len() > self.map[j].0.as_str().unicode_len() {
                            best = Some(i);
                        }
                    },
                }
            }
            proof {
                assert(ev.take(i + 1).drop_last() =~= ev.take(i as int));
                assert(ev.take(i + 1).last() == ev[i as int]);
            }
            i = i + 1;
        }
        proof {
            assert(ev.take(n as int) =~= ev);
        }
        match best {
            None => None,
            Some(j) => {
                proof {
                    lemma_best_entry_longest(ev, specifier@);
                    assert(ev[j as int] == (self.map@[j as int].0@, self.map@[j as int].1@));
                }
                let base = &self.map[j].0;
                let target0 = &self.map[j].1;
                let target: String = if starts_with_str(target0.as_str(), "./") {
                    proof {
                        reveal_strlit("./");
                        assert(target0@.len() >= 2);
                    }
                    let tail = target0.as_str().substring_char(1, target0.as_str().unicode_len());
                    proof {
                        assert(tail@ =~= target0@.skip(1));
                    }
                    concat_str(cwd, tail)
                } else {
                    target0.clone()
                };
                let blen: usize = base.as_str().unicode_len();
                let suffix = specifier.substring_char(blen, specifier.unicode_len());
                proof {
                    assert(suffix@ =~= specifier@.skip(blen as int));
                }
                let rewritten = target.concat(suffix);
                match extension_of(specifier) {
                    Some(ext) => {
                        let extended = with_extension(base.as_str(), ext.as_str());
                        if str_eq_str(specifier, extended.as_str()) {
                            None
                        } else {
                            Some(rewritten)
                        }
                    },
                    None => Some(rewritten),
                }
            },
        }
    }
}

/// The extensions tried, in order, when a specifier has none.
pub open spec fn spec_extensions() -> Seq<Seq<char>> {
    seq!["js"@, "jsx"@, "ts"@, "tsx"@, "json"@, "wasm"@]
}

fn extensions() -> (r: Vec<String>)
    ensures
        r.deep_view() == spec_extensions(),
{
    let mut v: Vec<String> = Vec::new();
    v.push(String::from_str("js"));
    v.push(String::from_str("jsx"));
    v.push(String::from_str("ts"));
    v.push(String::from_str("tsx"));
    v.push(String::from_str("json"));
    v.push(String::from_str("wasm"));
    proof {
        assert(v.deep_view() =~= spec_extensions());
    }
    v
}

/// A JSON source wrapped as an ES module.
pub open spec fn spec_wrap_json(source: Seq<char>) -> Seq<char> {
    "export default JSON.parse(`"@ + source + "`);"@
}

/// What loading the file at `path` yields: its contents, wrapped when the
/// path names a JSON file.
pub open spec fn spec_loaded_source(m: Map<Seq<char>, Seq<char>>, path: Seq<char>) -> Seq<char> {
    if spec_extension(path) == Some("json"@) {
        spec_wrap_json(m[path])
    } else {
        m[path]
    }
}

/// The paths the loader probes for a file import, in order: the path
/// itself, then — when it has no extension — the path with each default
/// extension.
pub open spec fn spec_file_candidates(p: Seq<char>) -> Seq<Seq<char>> {
    if spec_has_extension(p) {
        seq![p]
    } else {
        seq![p] + spec_extensions().map_values(|e: Seq<char>| spec_with_extension(p, e))
    }
}

/// The paths the loader probes for a directory import: `index.<ext>` under
/// the path, for each default extension.
pub open spec fn spec_dir_candidates(p: Seq<char>) -> Seq<Seq<char>> {
    spec_extensions().map_values(|e: Seq<char>| spec_join(p, "index."@ + e))
}

/// The first candidate present in the file snapshot, if any.
pub open spec fn spec_first_present(m: Map<Seq<char>, Seq<char>>, cands: Seq<Seq<char>>) -> Option<
    int,
>
    decreases cands.len(),
{
    if cands.len() == 0 {
        None
    } else if m.dom().contains(cands[0]) {
        Some(0)
    } else {
        match spec_first_present(m, cands.skip(1)) {
            Some(i) => Some(i + 1),
            None => None,
        }
    }
}

pub proof fn lemma_first_present_props(m: Map<Seq<char>, Seq<char>>, cands: Seq<Seq<char>>)
    ensures
        spec_first_present(m, cands) matches Some(i) ==> 0 <= i < cands.len() && m.dom().contains(
            cands[i],
        ) && forall|j: int| 0 <= j < i ==> !m.dom().contains(#[trigger] cands[j]),
        spec_first_present(m, cands) is None ==> forall|j: int|
            0 <= j < cands.len() ==> !m.dom().contains(#[trigger] cands[j]),
    decreases cands.len(),
{
    if cands.len() > 0 && !m.dom().contains(cands[0]) {
        lemma_first_present_props(m, cands.skip(1));
        assert(forall|j: int| 1 <= j < cands.len() ==> #[trigger] cands[j] == cands.skip(1)[j - 1]);
    }
}

/// Scans the candidates in order for one the snapshot holds.
fn first_present(fs: &StrMap<String>, cands: &Vec<String>) -> (r: Option<usize>)
    requires
        fs.wf(),
    ensures
        match r {
            Some(i) => spec_first_present(fs.string_view(), cands.deep_view()) == Some(i as int),
            None => spec_first_present(fs.string_view(), cands.deep_view()) is None,
        },
{
    let ghost m = fs.string_view();
    let ghost cv = cands.deep_view();
    let n: usize = cands.len();
    let mut i: usize = 0;
    proof {
        assert(cv.skip(0) =~= cv);
    }
    while i < n
        invariant
            0 <= i <= n,
            n == cv.len(),
            n == cands@.len(),
            cv == cands.deep_view(),
            m == fs.string_view(),
            fs.wf(),
            match spec_first_present(m, cv.skip(i as int)) {
                Some(t) => spec_first_present(m, cv) == Some(t + i),
                None => spec_first_present(m, cv) is None,
            },
        decreases n - i,
    {
        proof {
            assert(cv.skip(i as int)[0] == cv[i as int]);
            assert(cv[i as int] == cands@[i as int]@);
            assert(cv.skip(i as int).skip(1) =~= cv.skip(i + 1));
        }
        if fs.contains_key(cands[i].as_str()) {
            proof {
                assert(fs.spec_map().dom() =~= fs.string_view().dom());
            }
            return Some(i);
        }
        proof {
            assert(fs.spec_map().dom() =~= fs.string_view().dom());
        }
        i = i + 1;
    }
    proof {
        assert(cv.skip(n as int).len() == 0);
    }
    None
}

/// The result of a completed module load: the final specifier (with the
/// default `js` extension applied when none was given), the source text,
/// and whether the transpiler still has to run on it.
#[derive(Debug)]
pub struct LoadedModule {
    pub path: String,
    pub source: String,
    pub is_typescript: bool,
}

/// The loader for filesystem imports. Its probes run against a snapshot of
/// the relevant files: a map from path to contents.
#[derive(Default)]
pub struct FsModuleLoader;

impl FsModuleLoader {
    /// Whether a path names a JSON file.
    pub fn is_json_import(&self, path: &str) -> (r: bool)
        ensures
            r == (spec_extension(path@) == Some("json"@)),
    {
        match extension_of(path) {
            Some(e) => str_eq_str(e.as_str(), "json"),
            None => false,
        }
    }

    /// Wraps JSON data as an ES module with the parsed value as its default
    /// export.
    pub fn wrap_json(&self, source: &str) -> (r: String)
        ensures
            r@ == spec_wrap_json(source@),
    {
        let head = concat_str("export default JSON.parse(`", source);
        head.concat("`);")
    }

    /// The contents of the file at `path`, wrapped when it is JSON.
    fn load_source(&self, fs: &StrMap<String>, path: &str) -> (r: String)
        requires
            fs.wf(),
            fs.string_view().dom().contains(path@),
        ensures
            r@ == spec_loaded_source(fs.string_view(), path@),
    {
        let source = match fs.get(path) {
            Some(s) => s.clone(),
            None => String::new(),
        };
        proof {
            assert(fs.spec_map().dom() =~= fs.string_view().dom());
            assert(source@ == fs.string_view()[path@]);
        }
        if self.is_json_import(path) {
            self.wrap_json(source.as_str())
        } else {
            source
        }
    }

    /// The candidate paths for a file import.
    pub fn file_candidates(&self, path: &str) -> (r: Vec<String>)
        ensures
            r.deep_view() == spec_file_candidates(path@),
    {
        let ghost full = spec_extensions().map_values(|e: Seq<char>| spec_with_extension(path@, e));
        let mut out: Vec<String> = Vec::new();
        out.push(String::from_str(path));
        if !has_extension(path) {
            let exts = extensions();
            let n: usize = exts.len();
            let mut i: usize = 0;
            proof {
                assert(out.deep_view() =~= seq![path@] + full.take(0));
            }
            while i < n
                invariant
                    0 <= i <= n,
                    n == exts@.len(),
                    n == full.len(),
                    exts.deep_view() == spec_extensions(),
                    full == spec_extensions().map_values(
                        |e: Seq<char>| spec_with_extension(path@, e),
                    ),
                    out.deep_view() =~= seq![path@] + full.take(i as int),
                decreases n - i,
            {
                let ghost pre = out.deep_view();
                out.push(with_extension(path, exts[i].as_str()));
                proof {
                    assert(exts@[i as int]@ == spec_extensions()[i as int]);
                    assert(full[i as int] == spec_with_extension(
                        path@,
                        spec_extensions()[i as int],
                    ));
                    assert(out.deep_view() =~= pre.push(full[i as int]));
                    assert(out.deep_view() =~= seq![path@] + full.take(i + 1));
                }
                i = i + 1;
            }
            proof {
                assert(full.take(n as int) =~= full);
                assert(out.deep_view() =~= spec_file_candidates(path@));
            }
        } else {
            proof {
                assert(out.deep_view() =~= seq![path@]);
            }
        }
        out
    }

    /// The candidate paths for a directory import.
    pub fn dir_candidates(&self, path: &str) -> (r: Vec<String>)
        ensures
            r.deep_view() == spec_dir_candidates(path@),
    {
        let ghost full = spec_dir_candidates(path@);
        let mut out: Vec<String> = Vec::new();
        let exts = extensions();
        let n: usize = exts.len();
        let mut i: usize = 0;
        proof {
            assert(out.deep_view() =~= full.take(0));
        }
        while i < n
            invariant
                0 <= i <= n,
                n == exts@.len(),
                n == full.len(),
                full == spec_dir_candidates(path@),
                exts.deep_view() == spec_extensions(),
                out.deep_view() =~= full.take(i as int),
            decreases n - i,
        {
            let ghost pre = out.deep_view();
            let index_name = concat_str("index.", exts[i].as_str());
            out.push(join_path(path, index_name.as_str()));
            proof {
                assert(exts@[i as int]@ == spec_extensions()[i as int]);
                assert("index."@ + spec_extensions()[i as int] == index_name@);
                assert(full[i as int] == spec_join(path@, "index."@ + spec_extensions()[i as int]));
                assert(out.deep_view() =~= pre.push(full[i as int]));
                assert(out.deep_view() =~= full.take(i + 1));
            }
            i = i + 1;
        }
        proof {
            assert(full.take(n as int) =~= full);
        }
        out
    }

    /// Loads an import as a file: the path itself, then extension guesses.
    /// Fails with `ModuleNotFound` exactly when no candidate is present.
    pub fn load_as_file(&self, fs: &StrMap<String>, path: &str) -> (r: Result<String, AppError>)
        requires
            fs.wf(),
        ensures
            ({
                let cands = spec_file_candidates(path@);
                match spec_first_present(fs.string_view(), cands) {
                    Some(i) => r matches Ok(s) && s@ == spec_loaded_source(
                        fs.string_view(),
                        cands[i],
                    ),
                    None => r matches Err(e) && (e matches AppError::ModuleNotFound(p) && p@
                        == path@),
                }
            }),
    {
        let cands = self.file_candidates(path);
        match first_present(fs, &cands) {
            Some(i) => {
                proof {
                    lemma_first_present_props(fs.string_view(), cands.deep_view());
                    assert(cands@[i as int]@ == cands.deep_view()[i as int]);
                }
                Ok(self.load_source(fs, cands[i].as_str()))
            },
            None => Err(AppError::ModuleNotFound(String::from_str(path))),
        }
    }

    /// Loads an import as a directory via the `index.<ext>` convention.
    /// Fails with `ModuleNotFound` exactly when no candidate is present.
    pub fn load_as_directory(&self, fs: &StrMap<String>, path: &str) -> (r: Result<
        String,
        AppError,
    >)
        requires
            fs.wf(),
        ensures
            ({
                let cands = spec_dir_candidates(path@);
                match spec_first_present(fs.string_view(), cands) {
                    Some(i) => r matches Ok(s) && s@ == spec_loaded_source(
                        fs.string_view(),
                        cands[i],
                    ),
                    None => r matches Err(e) && (e matches AppError::ModuleNotFound(p) && p@
                        == path@),
                }
            }),
    {
        let cands = self.dir_candidates(path);
        match first_present(fs, &cands) {
            Some(i) => {
                proof {
                    lemma_first_present_props(fs.string_view(), cands.deep_view());
                    assert(cands@[i as int]@ == cands.deep_view()[i as int]);
                }
                Ok(self.load_source(fs, cands[i].as_str()))
            },
            None => Err(AppError::ModuleNotFound(String::from_str(path))),
        }
    }
}

/// The final form of a filesystem specifier: the default `js` extension is
/// applied when none was given.
pub open spec fn spec_final_path(p: Seq<char>) -> Seq<char> {
    if spec_has_extension(p) {
        p
    } else {
        spec_with_extension(p, "js"@)
    }
}

/// What the filesystem loader finds for a specifier: the first file
/// candidate present, else the first directory candidate present.
pub open spec fn spec_fs_load_source(m: Map<Seq<char>, Seq<char>>, p: Seq<char>) -> Option<
    Seq<char>,
> {
    match spec_first_present(m, spec_file_candidates(p)) {
        Some(i) => Some(spec_loaded_source(m, spec_file_candidates(p)[i])),
        None => match spec_first_present(m, spec_dir_candidates(p)) {
            Some(i) => Some(spec_loaded_source(m, spec_dir_candidates(p)[i])),
            None => None,
        },
    }
}

/// Where the filesystem loader resolves a specifier to: an absolute path is
/// normalised directly, a Windows drive path is kept as given, an
/// explicitly relative path is joined against the directory of `base` (or
/// `cwd` without one) and made absolute against `cwd`, and a bare
/// specifier does not resolve.
pub open spec fn spec_fs_resolve(
    base: Option<Seq<char>>,
    specifier: Seq<char>,
    cwd: Seq<char>,
) -> Option<Seq<char>> {
    if specifier.len() > 0 && specifier[0] == '/' {
        Some(spec_normalize(specifier))
    } else if spec_is_windows_path(specifier) {
        Some(specifier)
    } else if spec_is_relative_path(specifier) {
        let dir = match base {
            Some(b) => spec_parent(b),
            None => cwd,
        };
        let joined = spec_join(dir, specifier);
        let abs = if joined.len() > 0 && joined[0] == '/' {
            joined
        } else {
            spec_join(cwd, joined)
        };
        Some(spec_normalize(abs))
    } else {
        None
    }
}

impl FsModuleLoader {
    /// Resolves a specifier to a canonical path. Fails with
    /// `ModuleNotFound` exactly on a bare specifier.
    pub fn resolve(&self, base: Option<&str>, specifier: &str, cwd: &str) -> (r: Result<
        String,
        AppError,
    >)
        ensures
            match spec_fs_resolve(opt_str_view(base), specifier@, cwd@) {
                Some(p) => r matches Ok(x) && x@ == p,
                None => r matches Err(e) && (e matches AppError::ModuleNotFound(m) && m@
                    == specifier@),
            },
    {
        let n: usize = specifier.unicode_len();
        if n > 0 && specifier.get_char(0) == '/' {
            return Ok(normalize_path(specifier));
        }
        if is_windows_path(specifier) {
            return Ok(String::from_str(specifier));
        }
        if is_relative_path(specifier) {
            let dir: String = match base {
                Some(b) => parent_of(b),
                None => String::from_str(cwd),
            };
            let joined = join_path(dir.as_str(), specifier);
            let jn: usize = joined.as_str().unicode_len();
            let abs: String = if jn > 0 && joined.as_str().get_char(0) == '/' {
                joined
            } else {
                join_path(cwd, joined.as_str())
            };
            return Ok(normalize_path(abs.as_str()));
        }
        Err(AppError::ModuleNotFound(String::from_str(specifier)))
    }

    /// Loads a specifier from the file snapshot: as a file, then as a
    /// directory; the returned module carries the final specifier (default
    /// extension `js`) and whether the transpiler still has to run. Fails
    /// with `ModuleNotFound` exactly when no candidate is present.
    pub fn load(&self, fs: &StrMap<String>, specifier: &str) -> (r: Result<LoadedModule, AppError>)
        requires
            fs.wf(),
        ensures
            ({
                let final_path = spec_final_path(specifier@);
                match spec_fs_load_source(fs.string_view(), specifier@) {
                    Some(src) => r matches Ok(l) && l.path@ == final_path && l.source@ == src
                        && l.is_typescript == (spec_extension(final_path) == Some("ts"@)),
                    None => r matches Err(e) && (e matches AppError::ModuleNotFound(m) && m@
                        == final_path),
                }
            }),
    {
        let final_path: String = if has_extension(specifier) {
            String::from_str(specifier)
        } else {
            with_extension(specifier, "js")
        };
        let is_ts: bool = match extension_of(final_path.as_str()) {
            Some(e) => str_eq_str(e.as_str(), "ts"),
            None => false,
        };
        match self.load_as_file(fs, specifier) {
            Ok(source) => Ok(LoadedModule { path: final_path, source, is_typescript: is_ts }),
            Err(_) => match self.load_as_directory(fs, specifier) {
                Ok(source) => Ok(LoadedModule { path: final_path, source, is_typescript: is_ts }),
                Err(_) => Err(AppError::ModuleNotFound(final_path)),
            },
        }
    }
}

/// The view of an optional string slice.
pub open spec fn opt_str_view(o: Option<&str>) -> Option<Seq<char>> {
    match o {
        Some(s) => Some(s@),
        None => None,
    }
}

/// The canonical serialisation url::Url::parse gives an absolute-URL
/// string, when it accepts it.
pub uninterp spec fn spec_url_parse(s: Seq<char>) -> Option<Seq<char>>;

/// Relies on url::Url::parse: an input is accepted exactly when it is an
/// absolute URL, and the result is its canonical serialisation. A scheme
/// starts with an ASCII letter and nothing before it is trimmed but
/// controls and spaces, so an input beginning with `.` or `/` is never
/// accepted.
#[verifier::external_body]
fn parse_url(s: &str) -> (r: Option<String>)
    ensures
        (r is Some) == (spec_url_parse(s@) is Some),
        r matches Some(u) ==> u@ == spec_url_parse(s@).unwrap(),
        s@.len() > 0 && (s@[0] == '.' || s@[0] == '/') ==> r is None,
{
    match url::Url::parse(s) {
        Ok(u) => Some(String::from(u)),
        Err(_) => None,
    }
}

/// The resolution of a specifier against an absolute base URL, when the
/// base parses and the join succeeds.
pub uninterp spec fn spec_url_join(base: Seq<char>, specifier: Seq<char>) -> Option<Seq<char>>;

/// Relies on url::Url::parse and url::Url::join: resolves the specifier
/// relative to the base; `None` when the base is not an absolute URL or
/// the join fails.
#[verifier::external_body]
fn join_url(base: &str, specifier: &str) -> (r: Option<String>)
    ensures
        (r is Some) == (spec_url_join(base@, specifier@) is Some),
        r matches Some(u) ==> u@ == spec_url_join(base@, specifier@).unwrap(),
{
    let b = url::Url::parse(base).ok()?;
    let u = b.join(specifier).ok()?;
    Some(String::from(u))
}

/// The SHA-1 digest of a string's bytes, as 40 lowercase hex digits.
pub uninterp spec fn spec_sha1_hex(s: Seq<char>) -> Seq<char>;

/// Relies on sha::sha1::Sha1 (through Digest and DigestExt): the digest of
/// the input's bytes, hex-encoded; a 20-byte digest gives 40 hex
/// characters.
#[verifier::external_body]
fn sha1_hex(s: &str) -> (r: String)
    ensures
        r@ == spec_sha1_hex(s@),
        r@.len() == 40,
{
    Sha1::default().digest(s.as_bytes()).to_hex()
}

/// How a URL import is satisfied: from the on-disk cache, or by a download
/// the embedding performs into the named cache file.
pub enum UrlLoadPlan {
    Cached(String),
    Download { cache_file: String, transpile: bool },
}

/// The loader for URL imports. Downloads are content-addressed in a cache
/// directory by the SHA-1 of the URL; the cache itself is consulted as a
/// snapshot.
#[derive(Default)]
pub struct UrlModuleLoader {
    pub skip_cache: bool,
}

impl UrlModuleLoader {
    /// Where the URL loader resolves a specifier to: its own canonical URL
    /// when it parses, else its resolution against the base.
    pub open spec fn spec_resolve(base: Option<Seq<char>>, specifier: Seq<char>) -> Option<
        Seq<char>,
    > {
        match spec_url_parse(specifier) {
            Some(u) => Some(u),
            None => match base {
                Some(b) => spec_url_join(b, specifier),
                None => None,
            },
        }
    }

    /// Resolves a specifier to a canonical URL. Fails with
    /// `ModuleNotFound` exactly when neither the specifier nor its join
    /// with the base is an absolute URL.
    pub fn resolve(&self, base: Option<&str>, specifier: &str) -> (r: Result<String, AppError>)
        ensures
            match Self::spec_resolve(opt_str_view(base), specifier@) {
                Some(u) => r matches Ok(x) && x@ == u,
                None => r matches Err(e) && (e matches AppError::ModuleNotFound(m) && m@
                    == specifier@),
            },
    {
        match parse_url(specifier) {
            Some(u) => Ok(u),
            None => match base {
                Some(b) => match join_url(b, specifier) {
                    Some(u) => Ok(u),
                    None => Err(AppError::ModuleNotFound(String::from_str(specifier))),
                },
                None => Err(AppError::ModuleNotFound(String::from_str(specifier))),
            },
        }
    }

    /// The cache file a URL is stored under: the SHA-1 of the URL, in the
    /// cache directory.
    pub fn cache_path(&self, cache_dir: &str, specifier: &str) -> (r: String)
        ensures
            r@ == spec_join(cache_dir@, spec_sha1_hex(specifier@)),
    {
        let h = sha1_hex(specifier);
        join_path(cache_dir, h.as_str())
    }

    /// Decides how a URL import is satisfied against the cache snapshot:
    /// a cached copy is used unless the cache is skipped; otherwise the
    /// embedding downloads into the named cache file and transpiles when
    /// the URL names a TypeScript source.
    pub fn plan_load(&self, cache: &StrMap<String>, cache_dir: &str, specifier: &str) -> (r:
        UrlLoadPlan)
        requires
            cache.wf(),
        ensures
            ({
                let file = spec_join(cache_dir@, spec_sha1_hex(specifier@));
                if !self.skip_cache && cache.string_view().dom().contains(file) {
                    r matches UrlLoadPlan::Cached(s) && s@ == cache.string_view()[file]
                } else {
                    r matches UrlLoadPlan::Download { cache_file, transpile } && cache_file@
                        == file && transpile == ".ts"@.is_suffix_of(specifier@)
                }
            }),
    {
        let file = self.cache_path(cache_dir, specifier);
        proof {
            assert(cache.spec_map().dom() =~= cache.string_view().dom());
        }
        if !self.skip_cache && cache.contains_key(file.as_str()) {
            match cache.get(file.as_str()) {
                Some(s) => UrlLoadPlan::Cached(s.clone()),
                None => UrlLoadPlan::Download {
                    cache_file: file,
                    transpile: ends_with_str(specifier, ".ts"),
                },
            }
        } else {
            UrlLoadPlan::Download { cache_file: file, transpile: ends_with_str(specifier, ".ts") }
        }
    }
}

/// Which loader a specifier is served by.
pub enum LoaderKind {
    Url,
    Fs,
}

/// The top-level loader dispatch: a Windows drive path or a specifier that
/// parses as an absolute URL goes to the URL loader, everything else to
/// the filesystem loader. A relative path (`./`, `../`) or an absolute
/// path never parses as a URL, so it always lands on the filesystem
/// loader.
pub fn choose_loader(specifier: &str) -> (r: LoaderKind)
    ensures
        (r is Url) == (spec_is_windows_path(specifier@) || spec_url_parse(specifier@) is Some),
        spec_is_relative_path(specifier@) || (specifier@.len() > 0 && specifier@[0] == '/')
            ==> r is Fs,
{
    proof {
        reveal_strlit("./");
        reveal_strlit("../");
        if "./"@.is_prefix_of(specifier@) {
            assert(specifier@[0] == "./"@[0]);
        }
        if "../"@.is_prefix_of(specifier@) {
            assert(specifier@[0] == "../"@[0]);
        }
        if spec_is_relative_path(specifier@) {
            assert(specifier@.len() > 0 && specifier@[0] == '.');
        }
    }
    if is_windows_path(specifier) {
        return LoaderKind::Url;
    }
    match parse_url(specifier) {
        Some(_) => LoaderKind::Url,
        None => LoaderKind::Fs,
    }
}

/// The outcome of the top-level load: a module already in hand, or a
/// download the embedding performs into the named cache file.
pub enum LoadOutcome {
    Loaded(LoadedModule),
    Download { cache_file: String, transpile: bool },
}

/// Loads an import with the loader its shape selects: URL imports are
/// served from the cache or planned as downloads, filesystem imports from
/// the file snapshot.
pub fn load_import(
    fs: &StrMap<String>,
    cache: &StrMap<String>,
    cache_dir: &str,
    specifier: &str,
    skip_cache: bool,
) -> (r: Result<LoadOutcome, AppError>)
    requires
        fs.wf(),
        cache.wf(),
    ensures
        ({
            let url_import = spec_is_windows_path(specifier@) || spec_url_parse(specifier@)
                is Some;
            if url_import {
                let file = spec_join(cache_dir@, spec_sha1_hex(specifier@));
                if !skip_cache && cache.string_view().dom().contains(file) {
                    r matches Ok(LoadOutcome::Loaded(l)) && l.path@ == specifier@ && l.source@
                        == cache.string_view()[file] && l.is_typescript == false
                } else {
                    r matches Ok(LoadOutcome::Download { cache_file, transpile }) && cache_file@
                        == file && transpile == ".ts"@.is_suffix_of(specifier@)
                }
            } else {
                let final_path = spec_final_path(specifier@);
                match spec_fs_load_source(fs.string_view(), specifier@) {
                    Some(src) => r matches Ok(LoadOutcome::Loaded(l)) && l.path@ == final_path
                        && l.source@ == src && l.is_typescript == (spec_extension(final_path)
                        == Some("ts"@)),
                    None => r matches Err(e) && (e matches AppError::ModuleNotFound(m) && m@
                        == final_path),
                }
            }
        }),
{
    match choose_loader(specifier) {
        LoaderKind::Url => {
            let loader = UrlModuleLoader { skip_cache };
            match loader.plan_load(cache, cache_dir, specifier) {
                UrlLoadPlan::Cached(source) => Ok(
                    LoadOutcome::Loaded(
                        LoadedModule {
                            path: String::from_str(specifier),
                            source,
                            is_typescript: false,
                        },
                    ),
                ),
                UrlLoadPlan::Download { cache_file, transpile } => Ok(
                    LoadOutcome::Download { cache_file, transpile },
                ),
            }
        },
        LoaderKind::Fs => {
            let loader = FsModuleLoader;
            match loader.load(fs, specifier) {
                Ok(l) => Ok(LoadOutcome::Loaded(l)),
                Err(e) => Err(e),
            }
        },
    }
}

/// Whether a string begins like an absolute HTTP or HTTPS URL.
pub open spec fn spec_is_url_prefix(s: Seq<char>) -> bool {
    "http://"@.is_prefix_of(s) || "https://"@.is_prefix_of(s)
}

/// The top-level resolution: the specifier is first rewritten through the
/// import map (when one is given and matches); a rewritten specifier or
/// base that begins like an HTTP(S) URL goes to the URL resolver, anything
/// else to the filesystem resolver.
pub open spec fn spec_resolve_import(
    entries: Option<Seq<(Seq<char>, Seq<char>)>>,
    base: Option<Seq<char>>,
    specifier: Seq<char>,
    cwd: Seq<char>,
) -> Option<Seq<char>> {
    let s = match entries {
        Some(es) => match spec_lookup(es, specifier, cwd) {
            Some(t) => t,
            None => specifier,
        },
        None => specifier,
    };
    let is_url = spec_is_url_prefix(s) || (match base {
        Some(b) => spec_is_url_prefix(b),
        None => false,
    });
    if is_url {
        UrlModuleLoader::spec_resolve(base, s)
    } else {
        spec_fs_resolve(base, s, cwd)
    }
}

/// The view of an optional import map's entries.
pub open spec fn opt_map_entries(o: Option<&ImportMap>) -> Option<Seq<(Seq<char>, Seq<char>)>> {
    match o {
        Some(m) => Some(m.entries()),
        None => None,
    }
}

/// Resolves an import with the resolver its shape selects, after the
/// import-map rewrite. Fails with `ModuleNotFound` exactly when the chosen
/// resolver does, carrying the rewritten specifier.
pub fn resolve_import(
    base: Option<&str>,
    specifier: &str,
    import_map: Option<&ImportMap>,
    cwd: &str,
) -> (r: Result<String, AppError>)
    ensures
        ({
            let s = match opt_map_entries(import_map) {
                Some(es) => match spec_lookup(es, specifier@, cwd@) {
                    Some(t) => t,
                    None => specifier@,
                },
                None => specifier@,
            };
            match spec_resolve_import(opt_map_entries(import_map), opt_str_view(base), specifier@,
                cwd@) {
                Some(p) => r matches Ok(x) && x@ == p,
                None => r matches Err(e) && (e matches AppError::ModuleNotFound(m) && m@ == s),
            }
        }),
{
    let s: String = match import_map {
        Some(m) => match m.lookup(specifier, cwd) {
            Some(t) => t,
            None => String::from_str(specifier),
        },
        None => String::from_str(specifier),
    };
    let base_is_url: bool = match base {
        Some(b) => starts_with_str(b, "http://") || starts_with_str(b, "https://"),
        None => false,
    };
    let is_url: bool = starts_with_str(s.as_str(), "http://") || starts_with_str(
        s.as_str(),
        "https://",
    ) || base_is_url;
    if is_url {
        let loader = UrlModuleLoader { skip_cache: false };
        loader.resolve(base, s.as_str())
    } else {
        let loader = FsModuleLoader;
        loader.resolve(base, s.as_str(), cwd)
    }
}

/// The lifecycle of a module during a bundle run.
#[derive(Clone, Copy, Debug, PartialEq, Eq, Structural)]
pub enum ModuleStatus {
    /// The module's dependencies are still being fetched.
    Resolving,
    /// The module was seen before in this run; its fate is in the cache.
    Duplicate,
    /// The module and its whole subtree are resolved.
    Ready,
}

/// A dependency-graph edge being resolved; the graph itself lives in the
/// embedding script engine.
pub struct ModuleGraph {}

impl ModuleGraph {
    /// Starts resolution of a static import.
    pub fn static_import(_path: &str) -> ModuleGraph {
        ModuleGraph {}
    }

    /// Starts resolution of a dynamic import.
    pub fn dynamic_import(_path: &str) -> ModuleGraph {
        ModuleGraph {}
    }
}

/// A module in the bundler's dependency tree.
pub struct EsModule {
    pub path: String,
    pub status: ModuleStatus,
    pub dependencies: Vec<EsModule>,
}

/// The mathematical form of a module tree.
pub struct SpecModule {
    pub path: Seq<char>,
    pub status: ModuleStatus,
    pub deps: Seq<SpecModule>,
}

/// The view of a module tree.
pub open spec fn module_view(m: EsModule) -> SpecModule
    decreases m, 0int, 0int,
{
    SpecModule { path: m.path@, status: m.status, deps: deps_view(m.dependencies@, 0) }
}

/// The views of the dependencies from index `i` on.
pub open spec fn deps_view(ds: Seq<EsModule>, i: int) -> Seq<SpecModule>
    decreases ds, 1int, ds.len() - i,
{
    if i < 0 || i >= ds.len() {
        Seq::empty()
    } else {
        seq![module_view(ds[i])] + deps_view(ds, i + 1)
    }
}

/// The views of a module sequence, element by element.
pub open spec fn modules_view(ds: Seq<EsModule>) -> Seq<SpecModule> {
    ds.map_values(|d: EsModule| module_view(d))
}

pub proof fn lemma_deps_view_is_map(ds: Seq<EsModule>, i: int)
    requires
        0 <= i <= ds.len(),
    ensures
        deps_view(ds, i) == modules_view(ds).skip(i),
    decreases ds.len() - i,
{
    if i == ds.len() {
        assert(deps_view(ds, i) =~= modules_view(ds).skip(i));
    } else {
        lemma_deps_view_is_map(ds, i + 1);
        assert(deps_view(ds, i) =~= modules_view(ds).skip(i));
    }
}

/// One step of the fast-forward walk on a module: a `Ready` module is
/// final; a `Duplicate` module becomes `Ready` exactly when the cache has
/// recorded its path as `Ready`; a `Resolving` module first fast-forwards
/// its dependencies in order (threading the cache through), then becomes
/// `Ready` — and records itself in the cache — exactly when it has no
/// dependencies or all of them came out `Ready`.
pub open spec fn spec_ff(m: SpecModule, seen: Map<Seq<char>, ModuleStatus>) -> (
    SpecModule,
    Map<Seq<char>, ModuleStatus>,
)
    decreases m, 0int, 0int,
{
    if m.status == ModuleStatus::Ready {
        (m, seen)
    } else if m.status == ModuleStatus::Duplicate {
        if seen.contains_key(m.path) && seen[m.path] == ModuleStatus::Ready {
            (SpecModule { status: ModuleStatus::Ready, ..m }, seen)
        } else {
            (m, seen)
        }
    } else {
        let r = spec_ff_deps(m.deps, 0, seen);
        let deps2 = r.0;
        let seen2 = r.1;
        if deps2.len() == 0 {
            (
                SpecModule { status: ModuleStatus::Ready, ..m },
                seen2.insert(m.path, ModuleStatus::Ready),
            )
        } else if forall|i: int|
            0 <= i < deps2.len() ==> (#[trigger] deps2[i]).status == ModuleStatus::Ready {
            (
                SpecModule { status: ModuleStatus::Ready, deps: deps2, ..m },
                seen2.insert(m.path, ModuleStatus::Ready),
            )
        } else {
            (SpecModule { deps: deps2, ..m }, seen2)
        }
    }
}

/// The fast-forward walk over the dependencies from index `i` on, left to
/// right, threading the cache.
pub open spec fn spec_ff_deps(ds: Seq<SpecModule>, i: int, seen: Map<Seq<char>, ModuleStatus>) -> (
    Seq<SpecModule>,
    Map<Seq<char>, ModuleStatus>,
)
    decreases ds, 1int, ds.len() - i,
{
    if i < 0 || i >= ds.len() {
        (Seq::empty(), seen)
    } else {
        let r0 = spec_ff(ds[i], seen);
        let rest = spec_ff_deps(ds, i + 1, r0.1);
        (seq![r0.0] + rest.0, rest.1)
    }
}

impl EsModule {
    /// Fast-forwards the module tree against the status cache `seen`: the
    /// returned tree and the cache afterwards are exactly `spec_ff` of the
    /// tree and the cache before. A `Duplicate` whose path the cache does
    /// not hold is left as it is.
    pub fn fast_forward(self, seen: &mut StrMap<ModuleStatus>) -> (r: EsModule)
        requires
            old(seen).wf(),
        ensures
            final(seen).wf(),
            module_view(r) == spec_ff(module_view(self), old(seen).spec_map()).0,
            final(seen).spec_map() == spec_ff(module_view(self), old(seen).spec_map()).1,
        decreases self,
    {
        let ghost m0 = module_view(self);
        let ghost seen0 = seen.spec_map();
        if self.status == ModuleStatus::Ready {
            return self;
        }
        if self.status == ModuleStatus::Duplicate {
            match seen.get(self.path.as_str()) {
                Some(st) => {
                    if *st == ModuleStatus::Ready {
                        let r = EsModule { status: ModuleStatus::Ready, ..self };
                        proof {
                            assert(module_view(r) =~~= spec_ff(m0, seen0).0);
                        }
                        return r;
                    }
                    return self;
                },
                None => {
                    return self;
                },
            }
        }
        let path = self.path;
        let status = self.status;
        let mut rest = self.dependencies;
        let ghost old_deps = rest@;
        let ghost dv = modules_view(old_deps);
        proof {
            lemma_deps_view_is_map(old_deps, 0);
            assert(dv.skip(0) =~= dv);
            assert(m0.deps == dv);
        }
        let n: usize = rest.len();
        let mut out: Vec<EsModule> = Vec::new();
        let mut i: usize = 0;
        proof {
            assert(modules_view(out@) =~= Seq::empty());
            assert(spec_ff_deps(dv, 0, seen0).0 =~= modules_view(out@) + spec_ff_deps(
                dv,
                0,
                seen.spec_map(),
            ).0);
        }
        while i < n
            invariant
                0 <= i <= n,
                n == old_deps.len(),
                n == dv.len(),
                rest@.len() == n - i,
                old_deps == self.dependencies@,
                dv == modules_view(old_deps),
                forall|j: int| 0 <= j < rest@.len() ==> old_deps[i + j] == rest@[j],
                seen.wf(),
                modules_view(out@).len() == i,
                spec_ff_deps(dv, 0, seen0).0 == modules_view(out@) + spec_ff_deps(
                    dv,
                    i as int,
                    seen.spec_map(),
                ).0,
                spec_ff_deps(dv, 0, seen0).1 == spec_ff_deps(dv, i as int, seen.spec_map()).1,
            decreases n - i,
        {
            let ghost seen_now = seen.spec_map();
            let ghost pre_out = modules_view(out@);
            let d = rest.remove(0);
            proof {
                assert(d == old_deps[i as int]);
                assert(decreases_to!(self => d));
                assert(module_view(d) == dv[i as int]);
            }
            let d2 = d.fast_forward(seen);
            out.push(d2);
            proof {
                assert(modules_view(out@) =~= pre_out.push(module_view(d2)));
                assert(spec_ff_deps(dv, i as int, seen_now).0 =~= seq![
                    spec_ff(dv[i as int], seen_now).0,
                ] + spec_ff_deps(dv, i + 1, seen.spec_map()).0);
                assert(spec_ff_deps(dv, 0, seen0).0 =~= modules_view(out@) + spec_ff_deps(
                    dv,
                    i + 1,
                    seen.spec_map(),
                ).0);
            }
            i = i + 1;
        }
        proof {
            assert(spec_ff_deps(dv, n as int, seen.spec_map()).0 =~= Seq::empty());
            assert(spec_ff_deps(dv, 0, seen0).0 =~= modules_view(out@));
        }
        let out_len: usize = out.len();
        let mut all_ready: bool = true;
        let mut j: usize = 0;
        while j < out_len
            invariant
                0 <= j <= out_len,
                out_len == out@.len(),
                all_ready == (forall|t: int|
                    0 <= t < j ==> (#[trigger] out@[t]).status == ModuleStatus::Ready),
            decreases out_len - j,
        {
            if !(out[j].status == ModuleStatus::Ready) {
                all_ready = false;
            }
            j = j + 1;
        }
        proof {
            let deps2 = spec_ff_deps(dv, 0, seen0).0;
            assert(deps2 == modules_view(out@));
            assert(deps2.len() == out@.len());
            assert(forall|t: int|
                0 <= t < out@.len() ==> (#[trigger] deps2[t]).status == out@[t].status);
            if all_ready {
                assert(forall|t: int|
                    0 <= t < deps2.len() ==> (#[trigger] deps2[t]).status == ModuleStatus::Ready);
            } else {
                let w = choose|t: int|
                    0 <= t < out@.len() && (#[trigger] out@[t]).status != ModuleStatus::Ready;
                assert(deps2[w].status != ModuleStatus::Ready);
            }
        }
        if out_len == 0 || all_ready {
            seen.insert(path.clone(), ModuleStatus::Ready);
            let r = EsModule { path, status: ModuleStatus::Ready, dependencies: out };
            proof {
                lemma_deps_view_is_map(r.dependencies@, 0);
                assert(modules_view(r.dependencies@).skip(0) =~= modules_view(r.dependencies@));
                assert(module_view(r) =~~= spec_ff(m0, seen0).0);
            }
            r
        } else {
            let r = EsModule { path, status, dependencies: out };
            proof {
                lemma_deps_view_is_map(r.dependencies@, 0);
                assert(modules_view(r.dependencies@).skip(0) =~= modules_view(r.dependencies@));
                assert(module_view(r) =~~= spec_ff(m0, seen0).0);
            }
            r
        }
    }
}

/// The bundler's bookkeeping for one run: the compiled modules by
/// canonical specifier (as opaque handles the embedding engine assigned),
/// the designated main entry, and the graphs still being resolved. The map
/// is append-only within a run.
pub struct ModuleMap {
    pub main: Option<String>,
    pub index: StrMap<u64>,
    pub pending: Vec<ModuleGraph>,
}

impl ModuleMap {
    pub open spec fn wf(&self) -> bool {
        self.index.wf()
    }

    /// The specifier-to-handle mapping.
    pub open spec fn spec_index(&self) -> Map<Seq<char>, u64> {
        self.index.spec_map()
    }

    /// The specifier/handle pairs, in insertion order.
    pub open spec fn index_pairs(&self) -> Seq<(Seq<char>, u64)> {
        self.index.pairs()
    }

    pub fn new() -> (r: ModuleMap)
        ensures
            r.wf(),
            r.main is None,
            r.spec_index() == Map::<Seq<char>, u64>::empty(),
            r.pending@.len() == 0,
    {
        ModuleMap { main: None, index: StrMap::new(), pending: Vec::new() }
    }

    /// Registers a compiled module under its specifier. The first module
    /// whose path names a real file — or comes from the web — becomes the
    /// main entry; `path_is_file` carries what the filesystem said.
    pub fn insert(&mut self, path: &str, module: u64, path_is_file: bool)
        requires
            old(self).wf(),
        ensures
            final(self).wf(),
            final(self).spec_index() == old(self).spec_index().insert(path@, module),
            final(self).pending == old(self).pending,
            old(self).main is None && (path_is_file || "http"@.is_prefix_of(path@)) ==> (final(self).main matches Some(p) && p@ == path@),
            !(old(self).main is None && (path_is_file || "http"@.is_prefix_of(path@))) ==> final(self).main == old(self).main,
    {
        if self.main.is_none() && (path_is_file || starts_with_str(path, "http")) {
            self.main = Some(String::from_str(path));
        }
        self.index.insert(String::from_str(path), module);
    }

    /// Whether imports are still pending.
    pub fn has_pending_imports(&self) -> (r: bool)
        ensures
            r == (self.pending@.len() > 0),
    {
        self.pending.len() > 0
    }

    /// The handle registered under a specifier.
    pub fn get(&self, key: &str) -> (r: Option<u64>)
        requires
            self.wf(),
        ensures
            match r {
                Some(h) => self.spec_index().contains_key(key@) && h == self.spec_index()[key@],
                None => !self.spec_index().contains_key(key@),
            },
    {
        match self.index.get(key) {
            Some(h) => Some(*h),
            None => None,
        }
    }

    /// The specifier a handle was registered under, if any: the first
    /// entry holding it, in insertion order.
    pub fn get_path(&self, module: u64) -> (r: Option<String>)
        ensures
            match r {
                Some(p) => exists|i: int|
                    0 <= i < self.index_pairs().len() && #[trigger] self.index_pairs()[i] == (
                        p@,
                        module,
                    ),
                None => forall|i: int|
                    0 <= i < self.index_pairs().len() ==> (#[trigger] self.index_pairs()[i]).1
                        != module,
            },
    {
        let n: usize = self.index.len();
        let mut i: usize = 0;
        while i < n
            invariant
                0 <= i <= n,
                n == self.index_pairs().len(),
                forall|j: int|
                    0 <= j < i ==> (#[trigger] self.index_pairs()[j]).1 != module,
            decreases n - i,
        {
            if *self.index.value_at(i) == module {
                let p = self.index.key_at(i).clone();
                proof {
                    assert(self.index_pairs()[i as int] == (p@, module));
                }
                return Some(p);
            }
            i = i + 1;
        }
        None
    }
}

} // verus!
