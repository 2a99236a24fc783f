//! Bundler-facing options and the banner the emitter prepends: the
//! dependency walk, parsing and emission are the embedding parser's work;
//! what the bundle run decides — loader choice, resolution, caching — lives
//! in the loader set.

use vstd::prelude::*;
use vstd::string::StringExecFns;
use crate::modules::ImportMap;
use crate::strutil::concat_str;

verus! {

/// Options of one bundle run.
#[derive(Default)]
pub struct Options {
    pub skip_cache: bool,
    pub minify: bool,
    pub import_map: Option<ImportMap>,
}

/// The banner an unminified bundle starts with.
pub open spec fn spec_banner() -> Seq<char> {
    "// dino bundle\n// It's not recommended to edit this code manually since it's generated by `dino build`\n\n"@
}

/// Prepends the banner to an emitted bundle, unless it is minified.
pub fn prepend_banner(source: &str, minify: bool) -> (r: String)
    ensures
        minify ==> r@ == source@,
        !minify ==> r@ == spec_banner() + source@,
{
    if minify {
        String::from_str(source)
    } else {
        concat_str(
            "// dino bundle\n// It's not recommended to edit this code manually since it's generated by `dino build`\n\n",
            source,
        )
    }
}

} // verus!
