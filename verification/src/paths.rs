//! Verified path-string handling: extensions, parent directories, joining and
//! lexical normalisation of `/`-separated paths. Paths are modelled as
//! character sequences; `.` and `..` segments are resolved lexically.

use vstd::prelude::*;
use vstd::string::StrSliceExecFns;
use vstd::string::StringExecFns;
use crate::strutil::{spec_split, split_on, last_index_of_char, concat_str, starts_with_str};

verus! {

/// The index of the last occurrence of `c` in `s`, or -1 if absent.
pub open spec fn spec_last_index(s: Seq<char>, c: char) -> int
    decreases s.len(),
{
    if s.len() == 0 {
        -1
    } else if s.last() == c {
        s.len() - 1
    } else {
        spec_last_index(s.drop_last(), c)
    }
}

pub proof fn lemma_last_index_some(s: Seq<char>, c: char, i: int)
    requires
        0 <= i < s.len(),
        s[i] == c,
        forall|j: int| i < j < s.len() ==> s[j] != c,
    ensures
        spec_last_index(s, c) == i,
    decreases s.len(),
{
    if i == s.len() - 1 {
    } else {
        assert(s.last() != c);
        assert(s.drop_last()[i] == c);
        lemma_last_index_some(s.drop_last(), c, i);
    }
}

pub proof fn lemma_last_index_none(s: Seq<char>, c: char)
    requires
        !s.contains(c),
    ensures
        spec_last_index(s, c) == -1,
    decreases s.len(),
{
    if s.len() > 0 {
        assert(s.last() != c);
        assert(!s.drop_last().contains(c)) by {
            if s.drop_last().contains(c) {
                let j = choose|j: int| 0 <= j < s.drop_last().len() && s.drop_last()[j] == c;
                assert(s[j] == c);
            }
        }
        lemma_last_index_none(s.drop_last(), c);
    }
}

/// The extension of a path: the characters after the final `.` of the final
/// `/`-separated segment, provided that `.` is not the segment's first
/// character (so `.gitignore` has no extension).
pub open spec fn spec_extension(s: Seq<char>) -> Option<Seq<char>> {
    let sl = spec_last_index(s, '/');
    let d = spec_last_index(s, '.');
    if d > sl + 1 {
        Some(s.skip(d + 1))
    } else {
        None
    }
}

pub open spec fn spec_has_extension(s: Seq<char>) -> bool {
    spec_extension(s) is Some
}

/// The path with its extension replaced by (or, when it has none, suffixed
/// with) `.` and `ext`.
pub open spec fn spec_with_extension(s: Seq<char>, ext: Seq<char>) -> Seq<char> {
    let stem = if spec_extension(s) is Some {
        s.take(spec_last_index(s, '.'))
    } else {
        s
    };
    stem + seq!['.'] + ext
}

/// Whether the final `.` of `s` starts an extension: it must come after
/// the final `/`, with at least one character between them.
fn extension_dot(s: &str) -> (r: Option<usize>)
    ensures
        match r {
            Some(d) => spec_last_index(s@, '.') == d && d > spec_last_index(s@, '/') + 1 && d
                < s@.len(),
            None => spec_last_index(s@, '.') <= spec_last_index(s@, '/') + 1,
        },
{
    let sl = last_index_of_char(s, '/');
    let d = last_index_of_char(s, '.');
    proof {
        match sl {
            Some(i) => lemma_last_index_some(s@, '/', i as int),
            None => lemma_last_index_none(s@, '/'),
        }
        match d {
            Some(i) => lemma_last_index_some(s@, '.', i as int),
            None => lemma_last_index_none(s@, '.'),
        }
    }
    match d {
        None => None,
        Some(di) => {
            let past_slash: bool = match sl {
                None => di > 0,
                Some(sli) => di >= 1 && di - 1 > sli,
            };
            if past_slash {
                Some(di)
            } else {
                None
            }
        },
    }
}

/// The extension of `s`, if any.
pub fn extension_of(s: &str) -> (r: Option<String>)
    ensures
        match r {
            Some(e) => spec_extension(s@) == Some(e@),
            None => spec_extension(s@) is None,
        },
{
    match extension_dot(s) {
        Some(d) => {
            let n: usize = s.unicode_len();
            let e = s.substring_char(d + 1, n);
            proof {
                assert(e@ =~= s@.skip(d + 1));
            }
            Some(String::from_str(e))
        },
        None => None,
    }
}

/// Whether `s` has an extension.
pub fn has_extension(s: &str) -> (r: bool)
    ensures
        r == spec_has_extension(s@),
{
    match extension_dot(s) {
        Some(_) => true,
        None => false,
    }
}

/// `s` with its extension replaced by `ext`.
pub fn with_extension(s: &str, ext: &str) -> (r: String)
    ensures
        r@ == spec_with_extension(s@, ext@),
{
    let stem = match extension_dot(s) {
        Some(d) => {
            let t = s.substring_char(0, d);
            proof {
                assert(t@ =~= s@.take(spec_last_index(s@, '.')));
            }
            t
        },
        None => s,
    };
    let dotted = concat_str(stem, ".");
    let r = dotted.concat(ext);
    proof {
        assert(stem@ + "."@ + ext@ =~= spec_with_extension(s@, ext@)) by {
            reveal_strlit(".");
            assert("."@ =~= seq!['.']);
        }
    }
    r
}

/// The directory part of a path: everything before the final `/` (itself
/// excluded), `/` for a file directly under the root, and the empty string
/// for a bare file name.
pub open spec fn spec_parent(s: Seq<char>) -> Seq<char> {
    let sl = spec_last_index(s, '/');
    if sl == 0 {
        seq!['/']
    } else if sl > 0 {
        s.take(sl)
    } else {
        Seq::empty()
    }
}

pub fn parent_of(s: &str) -> (r: String)
    ensures
        r@ == spec_parent(s@),
{
    match last_index_of_char(s, '/') {
        Some(i) => {
            proof {
                lemma_last_index_some(s@, '/', i as int);
            }
            if i == 0 {
                let r = String::from_str("/");
                proof {
                    reveal_strlit("/");
                    assert(r@ =~= seq!['/']);
                }
                r
            } else {
                let p = s.substring_char(0, i);
                proof {
                    assert(p@ =~= s@.take(i as int));
                }
                String::from_str(p)
            }
        },
        None => {
            proof {
                lemma_last_index_none(s@, '/');
            }
            let r = String::new();
            proof {
                assert(r@ =~= Seq::<char>::empty());
            }
            r
        },
    }
}

/// Joining a directory and a relative path with `/`, avoiding a doubled
/// separator.
pub open spec fn spec_join(a: Seq<char>, b: Seq<char>) -> Seq<char> {
    if a.len() == 0 {
        b
    } else if a.last() == '/' {
        a + b
    } else {
        a + seq!['/'] + b
    }
}

pub fn join_path(a: &str, b: &str) -> (r: String)
    ensures
        r@ == spec_join(a@, b@),
{
    let an: usize = a.unicode_len();
    if an == 0 {
        let r = String::from_str(b);
        proof {
            assert(a@.len() == 0);
        }
        r
    } else if a.get_char(an - 1) == '/' {
        concat_str(a, b)
    } else {
        let withsep = concat_str(a, "/");
        let r = withsep.concat(b);
        proof {
            reveal_strlit("/");
            assert("/"@ =~= seq!['/']);
            assert(r@ =~= a@ + seq!['/'] + b@);
        }
        r
    }
}

/// The stack of segments left after resolving `.` , `..` and empty segments.
pub open spec fn norm_stack(segs: Seq<Seq<char>>) -> Seq<Seq<char>>
    decreases segs.len(),
{
    if segs.len() == 0 {
        Seq::empty()
    } else {
        let pre = norm_stack(segs.drop_last());
        let last = segs.last();
        if last.len() == 0 || last == seq!['.'] {
            pre
        } else if last == seq!['.', '.'] {
            if pre.len() > 0 {
                pre.drop_last()
            } else {
                pre
            }
        } else {
            pre.push(last)
        }
    }
}

/// Segments rendered with a `/` before each one.
pub open spec fn slash_join(parts: Seq<Seq<char>>) -> Seq<char>
    decreases parts.len(),
{
    if parts.len() == 0 {
        Seq::empty()
    } else {
        slash_join(parts.drop_last()) + seq!['/'] + parts.last()
    }
}

/// Lexical normalisation of an absolute `/`-separated path: empty and `.`
/// segments vanish, `..` removes the preceding segment (or is dropped at the
/// root), and the result is absolute again (`/` when nothing remains).
pub open spec fn spec_normalize(s: Seq<char>) -> Seq<char> {
    let stack = norm_stack(spec_split(s, '/'));
    if stack.len() == 0 {
        seq!['/']
    } else {
        slash_join(stack)
    }
}

pub fn normalize_path(s: &str) -> (r: String)
    ensures
        r@ == spec_normalize(s@),
{
    let segs = split_on(s, '/');
    let n: usize = segs.len();
    let mut stack: Vec<String> = Vec::new();
    let mut i: usize = 0;
    while i < n
        invariant
            0 <= i <= n,
            n == segs.deep_view().len(),
            segs.deep_view() == spec_split(s@, '/'),
            stack.deep_view() == norm_stack(segs.deep_view().take(i as int)),
        decreases n - i,
    {
        let ghost pre = stack.deep_view();
        let seg = &segs[i];
        let is_empty: bool = seg.as_str().unicode_len() == 0;
        let is_dot: bool = crate::strutil::str_eq_str(seg.as_str(), ".");
        let is_dotdot: bool = crate::strutil::str_eq_str(seg.as_str(), "..");
        proof {
            reveal_strlit(".");
            reveal_strlit("..");
            assert("."@ =~= seq!['.']);
            assert(".."@ =~= seq!['.', '.']);
        }
        if is_empty || is_dot {
        } else if is_dotdot {
            if stack.len() > 0 {
                stack.pop();
                proof {
                    assert(stack.deep_view() =~= pre.drop_last());
                }
            }
        } else {
            stack.push(seg.clone());
            proof {
                assert(stack.deep_view() =~= pre.push(seg@));
            }
        }
        proof {
            assert(segs.deep_view().take(i + 1).drop_last() =~= segs.deep_view().take(i as int));
            assert(segs.deep_view().take(i + 1).last() == segs.deep_view()[i as int]);
        }
        i = i + 1;
    }
    proof {
        assert(segs.deep_view().take(n as int) =~= segs.deep_view());
    }
    let m: usize = stack.len();
    if m == 0 {
        let r = String::from_str("/");
        proof {
            reveal_strlit("/");
            assert(r@ =~= spec_normalize(s@));
        }
        return r;
    }
    let mut out = String::new();
    let mut j: usize = 0;
    while j < m
        invariant
            0 <= j <= m,
            m == stack.deep_view().len(),
            out@ == slash_join(stack.deep_view().take(j as int)),
        decreases m - j,
    {
        let ghost pre_out = out@;
        out.append("/");
        out.append(stack[j].as_str());
        proof {
            reveal_strlit("/");
            assert("/"@ =~= seq!['/']);
            assert(stack.deep_view().take(j + 1).drop_last() =~= stack.deep_view().take(j as int));
            assert(out@ =~= slash_join(stack.deep_view().take(j + 1)));
        }
        j = j + 1;
    }
    proof {
        assert(stack.deep_view().take(m as int) =~= stack.deep_view());
    }
    out
}

/// Whether a specifier is a Windows-style absolute path: a drive letter, a
/// colon and a backslash (for example `C:\`).
pub open spec fn spec_is_windows_path(s: Seq<char>) -> bool {
    &&& s.len() >= 3
    &&& ('a' <= s[0] && s[0] <= 'z' || 'A' <= s[0] && s[0] <= 'Z')
    &&& s[1] == ':'
    &&& s[2] == '\\'
}

pub fn is_windows_path(s: &str) -> (r: bool)
    ensures
        r == spec_is_windows_path(s@),
{
    let n: usize = s.unicode_len();
    if n < 3 {
        return false;
    }
    let c0 = s.get_char(0);
    let alpha: bool = 'a' <= c0 && c0 <= 'z' || 'A' <= c0 && c0 <= 'Z';
    alpha && s.get_char(1) == ':' && s.get_char(2) == '\\'
}

/// Whether a specifier is an explicitly relative path (`./` or `../`).
pub open spec fn spec_is_relative_path(s: Seq<char>) -> bool {
    "./"@.is_prefix_of(s) || "../"@.is_prefix_of(s)
}

pub fn is_relative_path(s: &str) -> (r: bool)
    ensures
        r == spec_is_relative_path(s@),
{
    starts_with_str(s, "./") || starts_with_str(s, "../")
}

} // verus!
