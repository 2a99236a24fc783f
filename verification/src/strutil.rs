//! Verified utilities over `&str` and `String`: prefix/suffix tests, equality,
//! concatenation, character search and splitting. All contracts are stated
//! over the `Seq<char>` views of the inputs.

use vstd::prelude::*;
use vstd::string::StrSliceExecFns;
use vstd::string::StringExecFns;

verus! {

/// Splits `s` at every occurrence of `sep`. The result always has at least
/// one element; an empty input yields one empty piece.
pub open spec fn spec_split(s: Seq<char>, sep: char) -> Seq<Seq<char>>
    decreases s.len(),
{
    if s.len() == 0 {
        seq![Seq::<char>::empty()]
    } else if s[0] == sep {
        seq![Seq::<char>::empty()] + spec_split(s.skip(1), sep)
    } else {
        let rest = spec_split(s.skip(1), sep);
        seq![seq![s[0]] + rest[0]] + rest.skip(1)
    }
}

pub proof fn lemma_split_len(s: Seq<char>, sep: char)
    ensures
        spec_split(s, sep).len() >= 1,
    decreases s.len(),
{
    if s.len() == 0 {
    } else {
        lemma_split_len(s.skip(1), sep);
    }
}

/// A string without the separator splits into a single piece: itself.
pub proof fn lemma_split_no_sep(s: Seq<char>, sep: char)
    requires
        !s.contains(sep),
    ensures
        spec_split(s, sep) == seq![s],
    decreases s.len(),
{
    if s.len() == 0 {
        assert(spec_split(s, sep) =~~= seq![s]);
    } else {
        assert(s[0] != sep);
        assert(!s.skip(1).contains(sep)) by {
            if s.skip(1).contains(sep) {
                let j = choose|j: int| 0 <= j < s.skip(1).len() && s.skip(1)[j] == sep;
                assert(s[j + 1] == sep);
            }
        }
        lemma_split_no_sep(s.skip(1), sep);
        assert(spec_split(s, sep) =~~= seq![s]);
    }
}

/// Splitting at the first separator occurrence: the piece before it, then the
/// split of everything after it.
pub proof fn lemma_split_at_first(s: Seq<char>, sep: char, i: int)
    requires
        0 <= i < s.len(),
        s[i] == sep,
        forall|j: int| 0 <= j < i ==> s[j] != sep,
    ensures
        spec_split(s, sep) == seq![s.take(i)] + spec_split(s.skip(i + 1), sep),
    decreases i,
{
    if i == 0 {
        assert(spec_split(s, sep) =~~= seq![s.take(0)] + spec_split(s.skip(1), sep));
    } else {
        assert(s[0] != sep);
        let t = s.skip(1);
        assert(t[i - 1] == sep);
        assert(forall|j: int| 0 <= j < i - 1 ==> t[j] == s[j + 1] && t[j] != sep);
        lemma_split_at_first(t, sep, i - 1);
        lemma_split_len(t.skip(i), sep);
        assert(t.take(i - 1) =~= s.take(i).skip(1));
        assert(t.skip(i) =~= s.skip(i + 1));
        assert(seq![s[0]] + s.take(i).skip(1) =~= s.take(i));
        assert(spec_split(s, sep) =~~= seq![s.take(i)] + spec_split(s.skip(i + 1), sep));
    }
}

/// The index of the first occurrence of `c` in `s`, or -1 if absent.
pub open spec fn spec_first_index(s: Seq<char>, c: char) -> int
    decreases s.len(),
{
    if s.len() == 0 {
        -1
    } else if s[0] == c {
        0
    } else {
        let rest = spec_first_index(s.skip(1), c);
        if rest < 0 {
            -1
        } else {
            1 + rest
        }
    }
}

pub proof fn lemma_first_index_some(s: Seq<char>, c: char, i: int)
    requires
        0 <= i < s.len(),
        s[i] == c,
        forall|j: int| 0 <= j < i ==> s[j] != c,
    ensures
        spec_first_index(s, c) == i,
    decreases i,
{
    if i == 0 {
    } else {
        assert(s[0] != c);
        assert(s.skip(1)[i - 1] == c);
        assert(forall|j: int| 0 <= j < i - 1 ==> s.skip(1)[j] == s[j + 1] && s.skip(1)[j] != c);
        lemma_first_index_some(s.skip(1), c, i - 1);
    }
}

pub proof fn lemma_first_index_none(s: Seq<char>, c: char)
    requires
        !s.contains(c),
    ensures
        spec_first_index(s, c) == -1,
    decreases s.len(),
{
    if s.len() > 0 {
        assert(s[0] != c);
        assert(!s.skip(1).contains(c)) by {
            if s.skip(1).contains(c) {
                let j = choose|j: int| 0 <= j < s.skip(1).len() && s.skip(1)[j] == c;
                assert(s[j + 1] == c);
            }
        }
        lemma_first_index_none(s.skip(1), c);
    }
}

/// Whether `p` is a prefix of `s`.
pub fn starts_with_str(s: &str, p: &str) -> (r: bool)
    ensures
        r == p@.is_prefix_of(s@),
{
    let sn: usize = s.unicode_len();
    let pn: usize = p.unicode_len();
    if pn > sn {
        return false;
    }
    let mut i: usize = 0;
    while i < pn
        invariant
            0 <= i <= pn <= sn,
            sn == s@.len(),
            pn == p@.len(),
            forall|j: int| 0 <= j < i ==> s@[j] == p@[j],
        decreases pn - i,
    {
        if s.get_char(i) != p.get_char(i) {
            return false;
        }
        i = i + 1;
    }
    assert(p@.is_prefix_of(s@)) by {
        assert(p@ =~= s@.subrange(0, pn as int));
    }
    true
}

/// Whether `p` is a suffix of `s`.
pub fn ends_with_str(s: &str, p: &str) -> (r: bool)
    ensures
        r == p@.is_suffix_of(s@),
{
    let sn: usize = s.unicode_len();
    let pn: usize = p.unicode_len();
    if pn > sn {
        return false;
    }
    let off: usize = sn - pn;
    let mut i: usize = 0;
    while i < pn
        invariant
            0 <= i <= pn <= sn,
            off == sn - pn,
            sn == s@.len(),
            pn == p@.len(),
            forall|j: int| 0 <= j < i ==> s@[off + j] == p@[j],
        decreases pn - i,
    {
        if s.get_char(off + i) != p.get_char(i) {
            return false;
        }
        i = i + 1;
    }
    assert(p@.is_suffix_of(s@)) by {
        assert(p@ =~= s@.subrange(off as int, sn as int));
    }
    true
}

/// Character-wise string equality.
pub fn str_eq_str(a: &str, b: &str) -> (r: bool)
    ensures
        r == (a@ == b@),
{
    let an: usize = a.unicode_len();
    let bn: usize = b.unicode_len();
    if an != bn {
        return false;
    }
    let mut i: usize = 0;
    while i < an
        invariant
            0 <= i <= an,
            an == a@.len(),
            an == b@.len(),
            forall|j: int| 0 <= j < i ==> a@[j] == b@[j],
        decreases an - i,
    {
        if a.get_char(i) != b.get_char(i) {
            return false;
        }
        i = i + 1;
    }
    assert(a@ =~= b@);
    true
}

/// Concatenation of two string slices into an owned string.
pub fn concat_str(a: &str, b: &str) -> (r: String)
    ensures
        r@ == a@ + b@,
{
    let s = String::from_str(a);
    s.concat(b)
}

/// The index of the first occurrence of `c` in `s`, if any.
pub fn index_of_char(s: &str, c: char) -> (r: Option<usize>)
    ensures
        match r {
            Some(i) => i < s@.len() && s@[i as int] == c && forall|j: int|
                0 <= j < i ==> s@[j] != c,
            None => !s@.contains(c),
        },
{
    let n: usize = s.unicode_len();
    let mut i: usize = 0;
    while i < n
        invariant
            0 <= i <= n,
            n == s@.len(),
            forall|j: int| 0 <= j < i ==> s@[j] != c,
        decreases n - i,
    {
        if s.get_char(i) == c {
            return Some(i);
        }
        i = i + 1;
    }
    None
}

/// The index of the last occurrence of `c` in `s`, if any.
pub fn last_index_of_char(s: &str, c: char) -> (r: Option<usize>)
    ensures
        match r {
            Some(i) => i < s@.len() && s@[i as int] == c && forall|j: int|
                i < j < s@.len() ==> s@[j] != c,
            None => !s@.contains(c),
        },
{
    let n: usize = s.unicode_len();
    let mut i: usize = n;
    while i > 0
        invariant
            0 <= i <= n,
            n == s@.len(),
            forall|j: int| i <= j < n ==> s@[j] != c,
        decreases i,
    {
        i = i - 1;
        if s.get_char(i) == c {
            return Some(i);
        }
    }
    None
}

/// Splits `s` at every occurrence of `sep`.
pub fn split_on(s: &str, sep: char) -> (r: Vec<String>)
    ensures
        r.deep_view() == spec_split(s@, sep),
        r.len() >= 1,
    decreases s@.len(),
{
    let n: usize = s.unicode_len();
    match index_of_char(s, sep) {
        None => {
            let mut out: Vec<String> = Vec::new();
            out.push(String::from_str(s));
            proof {
                lemma_split_no_sep(s@, sep);
                assert(out.deep_view() =~= spec_split(s@, sep));
            }
            out
        },
        Some(i) => {
            let head = s.substring_char(0, i);
            let rest = s.substring_char(i + 1, n);
            let mut out: Vec<String> = Vec::new();
            out.push(String::from_str(head));
            let mut tail = split_on(rest, sep);
            out.append(&mut tail);
            proof {
                assert(head@ =~= s@.take(i as int));
                assert(rest@ =~= s@.skip(i + 1));
                lemma_split_at_first(s@, sep, i as int);
                assert(out.deep_view() =~= spec_split(s@, sep));
            }
            out
        },
    }
}

} // verus!
