//! Project hashing and build bookkeeping: the truncated BLAKE3 digest over
//! the project's source files that names build artifacts, the artifact
//! paths themselves, and the decision which file changes trigger a rebuild.
//! The files' contents arrive as explicit byte strings; globbing the
//! project directory is the embedding's business.

use vstd::prelude::*;
use vstd::string::StrSliceExecFns;
use vstd::string::StringExecFns;
use crate::paths::spec_extension;
use crate::strutil::{concat_str, ends_with_str};

verus! {

/// The BLAKE3 digest of a byte string, as 64 lowercase hex digits.
pub uninterp spec fn spec_blake3_hex(data: Seq<u8>) -> Seq<char>;

/// Relies on blake3::Hasher (update, finalize) and the hex rendering of
/// blake3::Hash: the 256-bit digest of the input bytes as 64 lowercase hex
/// characters.
#[verifier::external_body]
fn blake3_hex(data: &Vec<u8>) -> (r: String)
    ensures
        r@ == spec_blake3_hex(data@),
        r@.len() == 64,
{
    let mut hasher = blake3::Hasher::new();
    hasher.update(data.as_slice());
    hasher.finalize().to_string()
}

/// The digest of the given files' contents, concatenated in order, as its
/// first `len` hex digits (all 64 when `len` is larger). Hashing the
/// concatenation equals feeding the files to the hasher one after another.
pub fn calc_hash_for_files(files: &Vec<Vec<u8>>, len: usize) -> (r: String)
    ensures
        r@ == spec_blake3_hex(files.deep_view().flatten()).take(
            if len <= 64 {
                len as int
            } else {
                64int
            },
        ),
{
    let ghost dv = files.deep_view();
    let n: usize = files.len();
    let mut data: Vec<u8> = Vec::new();
    let mut i: usize = 0;
    proof {
        assert(dv.take(0) =~= Seq::empty());
        assert(dv.take(0).flatten() =~= Seq::empty());
        assert(data@ =~= dv.take(0).flatten());
    }
    while i < n
        invariant
            0 <= i <= n,
            n == dv.len(),
            n == files@.len(),
            dv == files.deep_view(),
            data@ == dv.take(i as int).flatten(),
        decreases n - i,
    {
        let ghost pre = data@;
        let file = &files[i];
        let m: usize = file.len();
        let mut j: usize = 0;
        while j < m
            invariant
                0 <= j <= m,
                m == file@.len(),
                data@ == pre + file@.take(j as int),
            decreases m - j,
        {
            data.push(file[j]);
            proof {
                assert(pre + file@.take(j + 1) =~= (pre + file@.take(j as int)).push(
                    file@[j as int],
                ));
            }
            j = j + 1;
        }
        proof {
            assert(file@.take(m as int) =~= file@);
            assert(file@ == dv[i as int]);
            assert(dv.take(i + 1) =~= dv.take(i as int).push(dv[i as int]));
            dv.take(i as int).lemma_flatten_push(dv[i as int]);
            assert(data@ =~= dv.take(i + 1).flatten());
        }
        i = i + 1;
    }
    proof {
        assert(dv.take(n as int) =~= dv);
    }
    let h = blake3_hex(&data);
    let cut: usize = if len <= 64 {
        len
    } else {
        64
    };
    let t = h.as_str().substring_char(0, cut);
    proof {
        assert(t@ =~= h@.take(cut as int));
    }
    String::from_str(t)
}

/// The project hash: the first 16 hex digits of the digest over the
/// project's source files.
pub fn calc_project_hash(files: &Vec<Vec<u8>>) -> (r: String)
    ensures
        r@ == spec_blake3_hex(files.deep_view().flatten()).take(16),
{
    calc_hash_for_files(files, 16)
}

/// The build artifact paths for a project hash: the bundled module and the
/// copied route configuration.
pub fn build_artifact_paths(hash: &str) -> (r: (String, String))
    ensures
        r.0@ == "build/"@ + hash@ + ".mjs"@,
        r.1@ == "build/"@ + hash@ + ".yml"@,
{
    let stem = concat_str("build/", hash);
    let mjs = concat_str(stem.as_str(), ".mjs");
    let yml = concat_str(stem.as_str(), ".yml");
    (mjs, yml)
}

/// Whether a changed file triggers a rebuild and swap: the tenant's route
/// configuration, or any TypeScript or JavaScript source.
pub fn is_watched_change(path: &str) -> (r: bool)
    ensures
        r == ("config.yml"@.is_suffix_of(path@) || spec_extension(path@) == Some("ts"@)
            || spec_extension(path@) == Some("js"@)),
{
    if ends_with_str(path, "config.yml") {
        return true;
    }
    match crate::paths::extension_of(path) {
        Some(e) => crate::strutil::str_eq_str(e.as_str(), "ts") || crate::strutil::str_eq_str(
            e.as_str(),
            "js",
        ),
        None => false,
    }
}

} // verus!
