//! The compiled router: path templates with static segments, `:name`
//! parameters and a trailing `*rest` catch-all, matched against a request
//! method and path. Among the routes that match, a static segment beats a
//! parameter and a parameter beats a catch-all, position by position, and
//! ties go to the route registered first.

use vstd::prelude::*;
use vstd::string::StrSliceExecFns;
use vstd::string::StringExecFns;
use crate::error::AppError;
use crate::strmap::StrMap;
use crate::strutil::{spec_split, split_on, str_eq_str};

verus! {

/// The mathematical form of one compiled pattern segment.
pub enum SpecSegment {
    Static(Seq<char>),
    Param(Seq<char>),
    CatchAll(Seq<char>),
}

/// One compiled pattern segment.
#[derive(Debug)]
pub enum Segment {
    Static(String),
    Param(String),
    CatchAll(String),
}

impl View for Segment {
    type V = SpecSegment;

    open spec fn view(&self) -> SpecSegment {
        match self {
            Segment::Static(s) => SpecSegment::Static(s@),
            Segment::Param(s) => SpecSegment::Param(s@),
            Segment::CatchAll(s) => SpecSegment::CatchAll(s@),
        }
    }
}

pub open spec fn segments_view(v: Seq<Segment>) -> Seq<SpecSegment> {
    v.map_values(|s: Segment| s@)
}

/// The `/`-separated segments of a path, with the empty piece before a
/// leading `/` dropped.
pub open spec fn spec_path_segments(p: Seq<char>) -> Seq<Seq<char>> {
    if p.len() > 0 && p[0] == '/' {
        spec_split(p, '/').skip(1)
    } else {
        spec_split(p, '/')
    }
}

/// How one template segment reads: `:name` is a parameter, `*name` a
/// catch-all, anything else a literal.
pub open spec fn spec_segment_of(s: Seq<char>) -> SpecSegment {
    if s.len() >= 1 && s[0] == ':' {
        SpecSegment::Param(s.skip(1))
    } else if s.len() >= 1 && s[0] == '*' {
        SpecSegment::CatchAll(s.skip(1))
    } else {
        SpecSegment::Static(s)
    }
}

/// The compiled form of a whole path template.
pub open spec fn spec_pattern_of(p: Seq<char>) -> Seq<SpecSegment> {
    spec_path_segments(p).map_values(|s: Seq<char>| spec_segment_of(s))
}

/// The capture name of a segment, if it has one.
pub open spec fn seg_name(s: SpecSegment) -> Option<Seq<char>> {
    match s {
        SpecSegment::Static(_) => None,
        SpecSegment::Param(n) => Some(n),
        SpecSegment::CatchAll(n) => Some(n),
    }
}

/// A well-formed pattern: capture names are non-empty and pairwise distinct,
/// and a catch-all can only stand last.
pub open spec fn pattern_wf(pat: Seq<SpecSegment>) -> bool {
    &&& forall|i: int| 0 <= i < pat.len() - 1 ==> !(#[trigger] pat[i] is CatchAll)
    &&& forall|i: int|
        0 <= i < pat.len() ==> (#[trigger] seg_name(pat[i]) matches Some(n) ==> n.len() > 0)
    &&& forall|i: int, j: int|
        0 <= i < j < pat.len() && seg_name(pat[i]) is Some ==> #[trigger] seg_name(pat[i])
            != #[trigger] seg_name(pat[j])
}

/// Whether a pattern matches a segmented path. A parameter consumes one
/// non-empty segment; a catch-all consumes the whole non-empty remainder.
pub open spec fn seg_matches(pat: Seq<SpecSegment>, path: Seq<Seq<char>>) -> bool
    decreases pat.len(),
{
    if pat.len() == 0 {
        path.len() == 0
    } else {
        match pat.first() {
            SpecSegment::CatchAll(_) => pat.len() == 1 && path.len() >= 1,
            SpecSegment::Static(s) => path.len() >= 1 && path.first() == s && seg_matches(
                pat.skip(1),
                path.skip(1),
            ),
            SpecSegment::Param(_) => path.len() >= 1 && path.first().len() > 0 && seg_matches(
                pat.skip(1),
                path.skip(1),
            ),
        }
    }
}

/// Segments joined with `/` between them.
pub open spec fn spec_join_segs(parts: Seq<Seq<char>>) -> Seq<char>
    decreases parts.len(),
{
    if parts.len() == 0 {
        Seq::empty()
    } else if parts.len() == 1 {
        parts.first()
    } else {
        parts.first() + seq!['/'] + spec_join_segs(parts.skip(1))
    }
}

/// The parameters captured when `pat` matches `path`, in pattern order.
pub open spec fn seg_params(pat: Seq<SpecSegment>, path: Seq<Seq<char>>) -> Seq<
    (Seq<char>, Seq<char>),
>
    decreases pat.len(),
{
    if pat.len() == 0 {
        Seq::empty()
    } else {
        match pat.first() {
            SpecSegment::CatchAll(n) => seq![(n, spec_join_segs(path))],
            SpecSegment::Static(_) => seg_params(pat.skip(1), path.skip(1)),
            SpecSegment::Param(n) => seq![(n, path.first())] + seg_params(
                pat.skip(1),
                path.skip(1),
            ),
        }
    }
}

/// The `/`-separated segments of `path`, as owned strings.
pub fn path_segments(path: &str) -> (r: Vec<String>)
    ensures
        r.deep_view() == spec_path_segments(path@),
{
    let mut segs = split_on(path, '/');
    if path.unicode_len() > 0 && path.get_char(0) == '/' {
        let ghost pre = segs.deep_view();
        segs.remove(0);
        proof {
            assert(segs.deep_view() =~= pre.skip(1));
        }
    }
    segs
}

/// Compiles one template segment.
fn parse_segment(seg: &str) -> (r: Segment)
    ensures
        r@ == spec_segment_of(seg@),
{
    let n: usize = seg.unicode_len();
    if n >= 1 && seg.get_char(0) == ':' {
        let name = seg.substring_char(1, n);
        proof {
            assert(name@ =~= seg@.skip(1));
        }
        Segment::Param(String::from_str(name))
    } else if n >= 1 && seg.get_char(0) == '*' {
        let name = seg.substring_char(1, n);
        proof {
            assert(name@ =~= seg@.skip(1));
        }
        Segment::CatchAll(String::from_str(name))
    } else {
        Segment::Static(String::from_str(seg))
    }
}

/// Compiles a path template, rejecting malformed ones: an empty capture
/// name, a repeated capture name, or a catch-all that is not last.
pub fn parse_pattern(path: &str) -> (r: Result<Vec<Segment>, AppError>)
    ensures
        match r {
            Ok(v) => segments_view(v@) == spec_pattern_of(path@) && pattern_wf(
                spec_pattern_of(path@),
            ),
            Err(e) => !pattern_wf(spec_pattern_of(path@)) && (e matches
                AppError::ConfigParseFailed(m) && m@ == path@),
        },
{
    let segs = path_segments(path);
    let n: usize = segs.len();
    let mut pat: Vec<Segment> = Vec::new();
    let mut seen: StrMap<bool> = StrMap::new();
    let ghost target = spec_pattern_of(path@);
    proof {
        assert(target =~= segs.deep_view().map_values(|s: Seq<char>| spec_segment_of(s)));
    }
    let mut i: usize = 0;
    while i < n
        invariant
            0 <= i <= n,
            n == segs.deep_view().len(),
            n == segs@.len(),
            target == spec_pattern_of(path@),
            target == segs.deep_view().map_values(|s: Seq<char>| spec_segment_of(s)),
            target.len() == n,
            segments_view(pat@) =~= target.take(i as int),
            pat@.len() == i,
            seen.wf(),
            forall|k: Seq<char>|
                seen.spec_map().contains_key(k) == exists|j: int|
                    0 <= j < i && #[trigger] seg_name(target[j]) == Some(k),
            forall|j: int| 0 <= j < i ==> (#[trigger] target[j] is CatchAll ==> j == n - 1),
            forall|j: int|
                0 <= j < i ==> (#[trigger] seg_name(target[j]) matches Some(nm) ==> nm.len() > 0),
            forall|j: int, k: int|
                0 <= j < k < i && seg_name(target[j]) is Some ==> #[trigger] seg_name(target[j])
                    != #[trigger] seg_name(target[k]),
        decreases n - i,
    {
        let seg = parse_segment(segs[i].as_str());
        proof {
            assert(segs.deep_view()[i as int] == segs@[i as int]@);
            assert(seg@ == target[i as int]);
        }
        match &seg {
            Segment::Static(_) => {},
            Segment::Param(name) => {
                if name.as_str().unicode_len() == 0 || seen.contains_key(name.as_str()) {
                    return Err(AppError::ConfigParseFailed(String::from_str(path)));
                }
                seen.insert(name.clone(), true);
            },
            Segment::CatchAll(name) => {
                if name.as_str().unicode_len() == 0 || seen.contains_key(name.as_str()) {
                    proof {
                        assert(seg_name(target[i as int]) == Some(name@));
                        if seen.spec_map().contains_key(name@) {
                            let j = choose|j: int|
                                0 <= j < i && #[trigger] seg_name(target[j]) == Some(name@);
                            assert(seg_name(target[j]) == seg_name(target[i as int]));
                        }
                    }
                    return Err(AppError::ConfigParseFailed(String::from_str(path)));
                }
                if i + 1 < n {
                    proof {
                        assert(target[i as int] is CatchAll);
                        assert(0 <= i < target.len() - 1);
                    }
                    return Err(AppError::ConfigParseFailed(String::from_str(path)));
                }
                seen.insert(name.clone(), true);
            },
        }
        pat.push(seg);
        proof {
            assert(segments_view(pat@) =~= target.take(i + 1));
        }
        i = i + 1;
    }
    proof {
        assert(target.take(n as int) =~= target);
    }
    Ok(pat)
}

/// The code point of `c` with a lower-case ASCII letter folded to upper case.
pub open spec fn spec_upper(c: char) -> int {
    if 97 <= c as int <= 122 {
        c as int - 32
    } else {
        c as int
    }
}

/// Case-insensitive (ASCII) equality of two strings, used for HTTP methods.
pub open spec fn spec_eq_ic(a: Seq<char>, b: Seq<char>) -> bool {
    a.len() == b.len() && forall|i: int| 0 <= i < a.len() ==> spec_upper(a[i]) == spec_upper(b[i])
}

fn chars_eq_ic(a: char, b: char) -> (r: bool)
    ensures
        r == (spec_upper(a) == spec_upper(b)),
{
    let av: u32 = a as u32;
    let bv: u32 = b as u32;
    let au: u32 = if 97 <= av && av <= 122 {
        av - 32
    } else {
        av
    };
    let bu: u32 = if 97 <= bv && bv <= 122 {
        bv - 32
    } else {
        bv
    };
    au == bu
}

/// Case-insensitive (ASCII) string equality.
pub fn eq_ignore_case(a: &str, b: &str) -> (r: bool)
    ensures
        r == spec_eq_ic(a@, b@),
{
    let an: usize = a.unicode_len();
    let bn: usize = b.unicode_len();
    if an != bn {
        return false;
    }
    let mut i: usize = 0;
    while i < an
        invariant
            0 <= i <= an,
            an == a@.len(),
            an == b@.len(),
            forall|j: int| 0 <= j < i ==> spec_upper(a@[j]) == spec_upper(b@[j]),
        decreases an - i,
    {
        if !chars_eq_ic(a.get_char(i), b.get_char(i)) {
            return false;
        }
        i = i + 1;
    }
    true
}

/// Whether a compiled pattern matches a segmented path.
pub fn match_segments(pat: &Vec<Segment>, segs: &Vec<String>) -> (r: bool)
    ensures
        r == seg_matches(segments_view(pat@), segs.deep_view()),
{
    let pn: usize = pat.len();
    let sn: usize = segs.len();
    let ghost pv = segments_view(pat@);
    let ghost sv = segs.deep_view();
    let mut i: usize = 0;
    proof {
        assert(pv.skip(0) =~= pv);
        assert(sv.skip(0) =~= sv);
    }
    while i < pn
        invariant
            0 <= i <= pn,
            i <= sn,
            pn == pv.len(),
            pn == pat@.len(),
            sn == sv.len(),
            sn == segs@.len(),
            pv == segments_view(pat@),
            sv == segs.deep_view(),
            seg_matches(pv, sv) == seg_matches(pv.skip(i as int), sv.skip(i as int)),
        decreases pn - i,
    {
        proof {
            assert(pv.skip(i as int).first() == pv[i as int]);
            assert(pv[i as int] == pat@[i as int]@);
        }
        match &pat[i] {
            Segment::CatchAll(_) => {
                proof {
                    assert(seg_matches(pv.skip(i as int), sv.skip(i as int)) == (pv.skip(
                        i as int,
                    ).len() == 1 && sv.skip(i as int).len() >= 1));
                }
                return i == pn - 1 && i < sn;
            },
            Segment::Static(s) => {
                if i >= sn {
                    proof {
                        assert(sv.skip(i as int).len() == 0);
                    }
                    return false;
                }
                proof {
                    assert(sv.skip(i as int).first() == sv[i as int]);
                    assert(sv[i as int] == segs@[i as int]@);
                }
                if !str_eq_str(s.as_str(), segs[i].as_str()) {
                    return false;
                }
                proof {
                    assert(pv.skip(i as int).skip(1) =~= pv.skip(i + 1));
                    assert(sv.skip(i as int).skip(1) =~= sv.skip(i + 1));
                }
            },
            Segment::Param(_) => {
                if i >= sn {
                    proof {
                        assert(sv.skip(i as int).len() == 0);
                    }
                    return false;
                }
                proof {
                    assert(sv.skip(i as int).first() == sv[i as int]);
                    assert(sv[i as int] == segs@[i as int]@);
                }
                if segs[i].as_str().unicode_len() == 0 {
                    return false;
                }
                proof {
                    assert(pv.skip(i as int).skip(1) =~= pv.skip(i + 1));
                    assert(sv.skip(i as int).skip(1) =~= sv.skip(i + 1));
                }
            },
        }
        i = i + 1;
    }
    proof {
        assert(pv.skip(pn as int).len() == 0);
        assert(seg_matches(pv.skip(pn as int), sv.skip(pn as int)) == (sv.skip(pn as int).len()
            == 0));
    }
    sn == pn
}

/// Joining with a `/` between each pair: the last segment extends the join
/// of those before it.
proof fn lemma_join_snoc(parts: Seq<Seq<char>>)
    requires
        parts.len() >= 2,
    ensures
        spec_join_segs(parts) == spec_join_segs(parts.drop_last()) + seq!['/'] + parts.last(),
    decreases parts.len(),
{
    if parts.len() == 2 {
        assert(parts.skip(1).first() == parts.last());
        assert(parts.skip(1).len() == 1);
        assert(spec_join_segs(parts.skip(1)) == parts.skip(1).first());
        assert(spec_join_segs(parts) == parts.first() + seq!['/'] + parts.last());
        assert(parts.drop_last() =~= seq![parts.first()]);
        assert(spec_join_segs(parts.drop_last()) == parts.first());
        assert(spec_join_segs(parts) =~~= spec_join_segs(parts.drop_last()) + seq!['/']
            + parts.last());
    } else {
        lemma_join_snoc(parts.skip(1));
        let x = spec_join_segs(parts.drop_last().skip(1));
        assert(parts.skip(1).drop_last() =~= parts.drop_last().skip(1));
        assert(parts.skip(1).last() == parts.last());
        assert(spec_join_segs(parts.skip(1)) == x + seq!['/'] + parts.last());
        assert(spec_join_segs(parts) == parts.first() + seq!['/'] + (x + seq!['/']
            + parts.last()));
        assert(parts.drop_last().len() >= 2);
        assert(parts.drop_last().first() == parts.first());
        assert(spec_join_segs(parts.drop_last()) == parts.first() + seq!['/'] + x);
        assert(parts.first() + seq!['/'] + (x + seq!['/'] + parts.last()) =~~= (parts.first()
            + seq!['/'] + x) + seq!['/'] + parts.last());
    }
}

/// The path segments from `from` on, joined back with `/`.
pub fn join_segments(segs: &Vec<String>, from: usize) -> (r: String)
    requires
        from <= segs@.len(),
    ensures
        r@ == spec_join_segs(segs.deep_view().skip(from as int)),
{
    let sn: usize = segs.len();
    let ghost sv = segs.deep_view();
    let mut out = String::new();
    let mut j: usize = from;
    while j < sn
        invariant
            from <= j <= sn,
            sn == sv.len(),
            sn == segs@.len(),
            sv == segs.deep_view(),
            out@ == spec_join_segs(sv.skip(from as int).take(j - from)),
        decreases sn - j,
    {
        let ghost sub = sv.skip(from as int).take(j - from);
        if j > from {
            out.append("/");
        }
        out.append(segs[j].as_str());
        proof {
            reveal_strlit("/");
            assert("/"@ =~= seq!['/']);
            let sub2 = sv.skip(from as int).take(j + 1 - from);
            assert(sub2.drop_last() =~= sub);
            assert(sub2.last() == sv[j as int]);
            assert(sv[j as int] == segs@[j as int]@);
            if j == from {
                assert(sub2 =~= seq![sv[j as int]]);
                assert(spec_join_segs(sub2) == sv[j as int]);
                assert(out@ =~= spec_join_segs(sub2));
            } else {
                lemma_join_snoc(sub2);
                assert(out@ =~= spec_join_segs(sub2));
            }
        }
        j = j + 1;
    }
    proof {
        assert(sv.skip(from as int).take(sn - from) =~= sv.skip(from as int));
    }
    out
}

/// The parameters a matching pattern captures from a path, in pattern order.
pub fn collect_params(pat: &Vec<Segment>, segs: &Vec<String>) -> (r: Vec<(String, String)>)
    requires
        seg_matches(segments_view(pat@), segs.deep_view()),
    ensures
        r.deep_view() == seg_params(segments_view(pat@), segs.deep_view()),
{
    let pn: usize = pat.len();
    let sn: usize = segs.len();
    let ghost pv = segments_view(pat@);
    let ghost sv = segs.deep_view();
    let mut out: Vec<(String, String)> = Vec::new();
    let mut i: usize = 0;
    proof {
        assert(pv.skip(0) =~= pv);
        assert(sv.skip(0) =~= sv);
        assert(out.deep_view() =~= Seq::empty());
        assert(seg_params(pv, sv) =~= out.deep_view() + seg_params(pv, sv));
    }
    while i < pn
        invariant
            0 <= i <= pn,
            i <= sn,
            pn == pv.len(),
            pn == pat@.len(),
            sn == sv.len(),
            sn == segs@.len(),
            pv == segments_view(pat@),
            sv == segs.deep_view(),
            seg_matches(pv.skip(i as int), sv.skip(i as int)),
            seg_params(pv, sv) == out.deep_view() + seg_params(
                pv.skip(i as int),
                sv.skip(i as int),
            ),
        decreases pn - i,
    {
        let ghost pre = out.deep_view();
        proof {
            assert(pv.skip(i as int).first() == pv[i as int]);
            assert(pv[i as int] == pat@[i as int]@);
            assert(pv.skip(i as int).skip(1) =~= pv.skip(i + 1));
            assert(sv.skip(i as int).skip(1) =~= sv.skip(i + 1));
            if i < sn {
                assert(sv.skip(i as int).first() == sv[i as int]);
                assert(sv[i as int] == segs@[i as int]@);
            }
        }
        match &pat[i] {
            Segment::CatchAll(name) => {
                let rest = join_segments(segs, i);
                proof {
                    assert(sv.skip(i as int) =~= segs.deep_view().skip(i as int));
                }
                out.push((name.clone(), rest));
                proof {
                    assert(out.deep_view() =~= pre.push((name@, rest@)));
                    assert(seg_params(pv.skip(i as int), sv.skip(i as int)) =~= seq![
                        (name@, rest@),
                    ]);
                    assert(seg_params(pv, sv) =~= out.deep_view());
                }
                return out;
            },
            Segment::Static(_) => {},
            Segment::Param(name) => {
                let value = segs[i].clone();
                out.push((name.clone(), value));
                proof {
                    assert(out.deep_view() =~= pre.push((name@, sv[i as int])));
                    assert(seg_params(pv.skip(i as int), sv.skip(i as int)) =~= seq![
                        (name@, sv[i as int]),
                    ] + seg_params(pv.skip(i + 1), sv.skip(i + 1)));
                    assert(seg_params(pv, sv) =~= out.deep_view() + seg_params(
                        pv.skip(i + 1),
                        sv.skip(i + 1),
                    ));
                }
            },
        }
        i = i + 1;
    }
    proof {
        assert(seg_params(pv.skip(pn as int), sv.skip(pn as int)) =~= Seq::empty());
        assert(seg_params(pv, sv) =~= out.deep_view());
    }
    out
}

/// How specific a segment is: a literal beats a parameter, a parameter
/// beats a catch-all.
pub open spec fn seg_rank(s: SpecSegment) -> int {
    match s {
        SpecSegment::Static(_) => 2,
        SpecSegment::Param(_) => 1,
        SpecSegment::CatchAll(_) => 0,
    }
}

/// Whether pattern `a` is strictly more specific than pattern `b`: at the
/// first position where their segment kinds differ, `a`'s ranks higher.
pub open spec fn more_specific(a: Seq<SpecSegment>, b: Seq<SpecSegment>) -> bool
    decreases a.len(),
{
    if a.len() == 0 || b.len() == 0 {
        false
    } else if seg_rank(a.first()) != seg_rank(b.first()) {
        seg_rank(a.first()) > seg_rank(b.first())
    } else {
        more_specific(a.skip(1), b.skip(1))
    }
}

fn more_specific_exec(a: &Vec<Segment>, b: &Vec<Segment>) -> (r: bool)
    ensures
        r == more_specific(segments_view(a@), segments_view(b@)),
{
    let an: usize = a.len();
    let bn: usize = b.len();
    let ghost av = segments_view(a@);
    let ghost bv = segments_view(b@);
    let mut i: usize = 0;
    proof {
        assert(av.skip(0) =~= av);
        assert(bv.skip(0) =~= bv);
    }
    while i < an && i < bn
        invariant
            0 <= i <= an,
            i <= bn,
            an == av.len(),
            an == a@.len(),
            bn == bv.len(),
            bn == b@.len(),
            av == segments_view(a@),
            bv == segments_view(b@),
            more_specific(av, bv) == more_specific(av.skip(i as int), bv.skip(i as int)),
        decreases an - i,
    {
        proof {
            assert(av.skip(i as int).first() == av[i as int]);
            assert(bv.skip(i as int).first() == bv[i as int]);
            assert(av[i as int] == a@[i as int]@);
            assert(bv[i as int] == b@[i as int]@);
            assert(av.skip(i as int).skip(1) =~= av.skip(i + 1));
            assert(bv.skip(i as int).skip(1) =~= bv.skip(i + 1));
        }
        let ra: u8 = match &a[i] {
            Segment::Static(_) => 2,
            Segment::Param(_) => 1,
            Segment::CatchAll(_) => 0,
        };
        let rb: u8 = match &b[i] {
            Segment::Static(_) => 2,
            Segment::Param(_) => 1,
            Segment::CatchAll(_) => 0,
        };
        if ra != rb {
            return ra > rb;
        }
        i = i + 1;
    }
    proof {
        assert(av.skip(i as int).len() == 0 || bv.skip(i as int).len() == 0);
    }
    false
}

/// The mathematical form of one compiled route.
pub struct SpecRoute {
    pub method: Seq<char>,
    pub pattern: Seq<SpecSegment>,
    pub handler: Seq<char>,
}

/// One compiled route: a method, a compiled pattern and a handler name.
#[derive(Debug)]
pub struct CompiledRoute {
    pub method: String,
    pub segments: Vec<Segment>,
    pub handler: String,
}

impl View for CompiledRoute {
    type V = SpecRoute;

    open spec fn view(&self) -> SpecRoute {
        SpecRoute {
            method: self.method@,
            pattern: segments_view(self.segments@),
            handler: self.handler@,
        }
    }
}

pub open spec fn routes_view(v: Seq<CompiledRoute>) -> Seq<SpecRoute> {
    v.map_values(|r: CompiledRoute| r@)
}

/// Whether a route applies: its method equals the request's (ignoring ASCII
/// case) and its pattern matches the segmented path.
pub open spec fn route_matches(r: SpecRoute, method: Seq<char>, segs: Seq<Seq<char>>) -> bool {
    spec_eq_ic(r.method, method) && seg_matches(r.pattern, segs)
}

/// The route the router picks: among those that match, the most specific,
/// and among equally specific ones the one registered first.
pub open spec fn spec_best_route(
    rs: Seq<SpecRoute>,
    method: Seq<char>,
    segs: Seq<Seq<char>>,
) -> Option<int>
    decreases rs.len(),
{
    if rs.len() == 0 {
        None
    } else {
        let prev = spec_best_route(rs.drop_last(), method, segs);
        let i = rs.len() - 1;
        if route_matches(rs[i], method, segs) {
            match prev {
                None => Some(i),
                Some(j) => if more_specific(rs[i].pattern, rs[j].pattern) {
                    Some(i)
                } else {
                    Some(j)
                },
            }
        } else {
            prev
        }
    }
}

/// The picked route exists and matches; when none is picked, no route
/// matches at all.
pub proof fn lemma_best_route_matches(rs: Seq<SpecRoute>, method: Seq<char>, segs: Seq<Seq<char>>)
    ensures
        spec_best_route(rs, method, segs) matches Some(j) ==> 0 <= j < rs.len() && route_matches(
            rs[j],
            method,
            segs,
        ),
        spec_best_route(rs, method, segs) is None ==> forall|i: int|
            0 <= i < rs.len() ==> !route_matches(#[trigger] rs[i], method, segs),
    decreases rs.len(),
{
    if rs.len() > 0 {
        lemma_best_route_matches(rs.drop_last(), method, segs);
        assert(forall|i: int| 0 <= i < rs.len() - 1 ==> #[trigger] rs[i] == rs.drop_last()[i]);
    }
}

/// The result of a successful match: the handler's name and the captured
/// path parameters.
#[derive(Debug)]
pub struct RouteMatch {
    pub handler: String,
    pub params: StrMap<String>,
}

/// An association map built by inserting a pair list in order.
fn strmap_from_pairs(v: &Vec<(String, String)>) -> (m: StrMap<String>)
    ensures
        m.wf(),
        m.string_view() == crate::strmap::pairs_to_map(v.deep_view()),
{
    let n: usize = v.len();
    let ghost dv = v.deep_view();
    let mut m: StrMap<String> = StrMap::new();
    let mut i: usize = 0;
    proof {
        assert(dv.take(0) =~= Seq::empty());
        assert(m.string_view() =~= crate::strmap::pairs_to_map(dv.take(0)));
    }
    while i < n
        invariant
            0 <= i <= n,
            n == dv.len(),
            n == v@.len(),
            dv == v.deep_view(),
            m.wf(),
            m.string_view() == crate::strmap::pairs_to_map(dv.take(i as int)),
        decreases n - i,
    {
        let ghost pre = m.string_view();
        let k = v[i].0.clone();
        let val = v[i].1.clone();
        let ghost kv = k@;
        let ghost vv = val@;
        m.insert(k, val);
        proof {
            assert(m.string_view() =~= pre.insert(kv, vv));
            assert(dv.take(i + 1).drop_last() =~= dv.take(i as int));
            assert(dv.take(i + 1).last() == dv[i as int]);
            assert(dv[i as int] == (v@[i as int].0@, v@[i as int].1@));
        }
        i = i + 1;
    }
    proof {
        assert(dv.take(n as int) =~= dv);
    }
    m
}

/// A compiled router: the bundled module text it belongs to and the routes.
#[derive(Debug)]
pub struct AppRouter {
    pub code: String,
    pub routes: Vec<CompiledRoute>,
}

impl AppRouter {
    /// The compiled routes, in registration order.
    pub open spec fn spec_routes(&self) -> Seq<SpecRoute> {
        routes_view(self.routes@)
    }

    /// Every route's pattern is well-formed.
    pub open spec fn wf(&self) -> bool {
        forall|i: int|
            0 <= i < self.spec_routes().len() ==> pattern_wf(
                #[trigger] self.spec_routes()[i].pattern,
            )
    }

    /// Compiles a route table. Fails exactly when some path template is
    /// malformed.
    pub fn try_new(code: &str, routes: &Vec<crate::config::ProjectRoute>) -> (r: Result<
        AppRouter,
        AppError,
    >)
        ensures
            match r {
                Ok(router) => {
                    &&& router.wf()
                    &&& router.code@ == code@
                    &&& router.spec_routes().len() == routes@.len()
                    &&& forall|i: int|
                        0 <= i < routes@.len() ==> {
                            &&& (#[trigger] router.spec_routes()[i]).method == routes@[i].method@
                            &&& router.spec_routes()[i].pattern == spec_pattern_of(
                                routes@[i].path@,
                            )
                            &&& router.spec_routes()[i].handler == routes@[i].handler@
                        }
                },
                Err(e) => {
                    &&& exists|i: int|
                        0 <= i < routes@.len() && !pattern_wf(
                            spec_pattern_of(#[trigger] routes@[i].path@),
                        )
                    &&& e is ConfigParseFailed
                },
            },
    {
        let n: usize = routes.len();
        let mut compiled: Vec<CompiledRoute> = Vec::new();
        let mut i: usize = 0;
        while i < n
            invariant
                0 <= i <= n,
                n == routes@.len(),
                compiled@.len() == i,
                forall|j: int|
                    0 <= j < i ==> {
                        &&& (#[trigger] compiled@[j])@.method == routes@[j].method@
                        &&& compiled@[j]@.pattern == spec_pattern_of(routes@[j].path@)
                        &&& compiled@[j]@.handler == routes@[j].handler@
                        &&& pattern_wf(compiled@[j]@.pattern)
                    },
            decreases n - i,
        {
            let route = &routes[i];
            match parse_pattern(route.path.as_str()) {
                Ok(segments) => {
                    compiled.push(
                        CompiledRoute {
                            method: route.method.clone(),
                            segments,
                            handler: route.handler.clone(),
                        },
                    );
                },
                Err(e) => {
                    return Err(e);
                },
            }
            i = i + 1;
        }
        let router = AppRouter { code: String::from_str(code), routes: compiled };
        proof {
            assert(router.spec_routes().len() == n);
            assert(forall|j: int|
                0 <= j < n ==> #[trigger] router.spec_routes()[j] == compiled@[j]@);
        }
        Ok(router)
    }

    /// Matches a request method and path, returning the best route's handler
    /// name and captured parameters, or `RouteNotFound`.
    pub fn match_it(&self, method: &str, path: &str) -> (r: Result<RouteMatch, AppError>)
        requires
            self.wf(),
        ensures
            match spec_best_route(self.spec_routes(), method@, spec_path_segments(path@)) {
                Some(j) => r matches Ok(m) && m.handler@ == self.spec_routes()[j].handler
                    && m.params.wf() && m.params.string_view() == crate::strmap::pairs_to_map(
                    seg_params(self.spec_routes()[j].pattern, spec_path_segments(path@)),
                ),
                None => r matches Err(e) && (e matches AppError::RouteNotFound(p) && p@ == path@),
            },
    {
        let segs = path_segments(path);
        let ghost rv = self.spec_routes();
        let ghost sv = spec_path_segments(path@);
        let n: usize = self.routes.len();
        let mut best: Option<usize> = None;
        let mut i: usize = 0;
        proof {
            assert(rv.take(0) =~= Seq::empty());
        }
        while i < n
            invariant
                0 <= i <= n,
                n == rv.len(),
                n == self.routes@.len(),
                rv == self.spec_routes(),
                sv == spec_path_segments(path@),
                segs.deep_view() == sv,
                match best {
                    Some(j) => j < i && spec_best_route(rv.take(i as int), method@, sv) == Some(
                        j as int,
                    ),
                    None => spec_best_route(rv.take(i as int), method@, sv) is None,
                },
            decreases n - i,
        {
            let rt = &self.routes[i];
            proof {
                assert(rv[i as int] == self.routes@[i as int]@);
            }
            let applies: bool = eq_ignore_case(rt.method.as_str(), method) && match_segments(
                &rt.segments,
                &segs,
            );
            let ghost old_best = best;
            if applies {
                match best {
                    None => {
                        best = Some(i);
                    },
                    Some(j) => {
                        proof {
                            assert(rv[j as int] == self.routes@[j as int]@);
                        }
                        if more_specific_exec(&rt.segments, &self.routes[j].segments) {
                            best = Some(i);
                        }
                    },
                }
            }
            proof {
                assert(rv.take(i + 1).drop_last() =~= rv.take(i as int));
                assert(rv.take(i + 1).last() == rv[i as int]);
            }
            i = i + 1;
        }
        proof {
            assert(rv.take(n as int) =~= rv);
        }
        match best {
            Some(j) => {
                let rt = &self.routes[j];
                proof {
                    assert(rv[j as int] == self.routes@[j as int]@);
                    lemma_best_route_matches(rv, method@, sv);
                }
                let pairs = collect_params(&rt.segments, &segs);
                let params = strmap_from_pairs(&pairs);
                Ok(RouteMatch { handler: rt.handler.clone(), params })
            },
            None => Err(AppError::RouteNotFound(String::from_str(path))),
        }
    }

    /// A deep copy with the same code and routes.
    pub fn duplicate(&self) -> (r: AppRouter)
        ensures
            r.code@ == self.code@,
            r.spec_routes() == self.spec_routes(),
    {
        let n: usize = self.routes.len();
        let mut routes: Vec<CompiledRoute> = Vec::new();
        let mut i: usize = 0;
        while i < n
            invariant
                0 <= i <= n,
                n == self.routes@.len(),
                routes@.len() == i,
                forall|j: int| 0 <= j < i ==> #[trigger] routes@[j]@ == self.routes@[j]@,
            decreases n - i,
        {
            let rt = &self.routes[i];
            let mut segments: Vec<Segment> = Vec::new();
            let m: usize = rt.segments.len();
            let mut k: usize = 0;
            while k < m
                invariant
                    0 <= k <= m,
                    m == rt.segments@.len(),
                    segments@.len() == k,
                    forall|t: int|
                        0 <= t < k ==> #[trigger] segments@[t]@ == rt.segments@[t]@,
                decreases m - k,
            {
                let seg = match &rt.segments[k] {
                    Segment::Static(s) => Segment::Static(s.clone()),
                    Segment::Param(s) => Segment::Param(s.clone()),
                    Segment::CatchAll(s) => Segment::CatchAll(s.clone()),
                };
                segments.push(seg);
                k = k + 1;
            }
            proof {
                assert(segments_view(segments@) =~= segments_view(rt.segments@));
            }
            routes.push(
                CompiledRoute {
                    method: rt.method.clone(),
                    segments,
                    handler: rt.handler.clone(),
                },
            );
            i = i + 1;
        }
        let r = AppRouter { code: self.code.clone(), routes };
        proof {
            assert(r.spec_routes() =~= self.spec_routes());
        }
        r
    }
}

/// A hot-swappable router handle: it always publishes one whole compiled
/// router, a snapshot of which serves one request. In the running server the
/// published value sits behind an atomic pointer swap; a snapshot keeps
/// serving its router even when a swap follows it.
pub struct SwappableAppRouter {
    pub inner: AppRouter,
}

impl SwappableAppRouter {
    pub open spec fn spec_code(&self) -> Seq<char> {
        self.inner.code@
    }

    pub open spec fn spec_routes(&self) -> Seq<SpecRoute> {
        self.inner.spec_routes()
    }

    pub open spec fn wf(&self) -> bool {
        forall|i: int|
            0 <= i < self.spec_routes().len() ==> pattern_wf(
                #[trigger] self.spec_routes()[i].pattern,
            )
    }

    /// Compiles the initial router.
    pub fn try_new(code: &str, routes: &Vec<crate::config::ProjectRoute>) -> (r: Result<
        Self,
        AppError,
    >)
        ensures
            match r {
                Ok(h) => {
                    &&& h.wf()
                    &&& h.spec_code() == code@
                    &&& h.spec_routes().len() == routes@.len()
                    &&& forall|i: int|
                        0 <= i < routes@.len() ==> {
                            &&& (#[trigger] h.spec_routes()[i]).method == routes@[i].method@
                            &&& h.spec_routes()[i].pattern == spec_pattern_of(routes@[i].path@)
                            &&& h.spec_routes()[i].handler == routes@[i].handler@
                        }
                },
                Err(e) => {
                    &&& exists|i: int|
                        0 <= i < routes@.len() && !pattern_wf(
                            spec_pattern_of(#[trigger] routes@[i].path@),
                        )
                    &&& e is ConfigParseFailed
                },
            },
    {
        match AppRouter::try_new(code, routes) {
            Ok(inner) => Ok(SwappableAppRouter { inner }),
            Err(e) => Err(e),
        }
    }

    /// Builds a new inner router and publishes it whole. On a compile error
    /// the handle keeps its current router.
    pub fn swap(&mut self, code: &str, routes: &Vec<crate::config::ProjectRoute>) -> (r: Result<
        (),
        AppError,
    >)
        ensures
            match r {
                Ok(_) => {
                    &&& final(self).wf()
                    &&& final(self).spec_code() == code@
                    &&& final(self).spec_routes().len() == routes@.len()
                    &&& forall|i: int|
                        0 <= i < routes@.len() ==> {
                            &&& (#[trigger] final(self).spec_routes()[i]).method == routes@[i].method@
                            &&& final(self).spec_routes()[i].pattern == spec_pattern_of(
                                routes@[i].path@,
                            )
                            &&& final(self).spec_routes()[i].handler == routes@[i].handler@
                        }
                },
                Err(e) => {
                    &&& exists|i: int|
                        0 <= i < routes@.len() && !pattern_wf(
                            spec_pattern_of(#[trigger] routes@[i].path@),
                        )
                    &&& e is ConfigParseFailed
                    &&& *final(self) == *old(self)
                },
            },
    {
        match AppRouter::try_new(code, routes) {
            Ok(inner) => {
                self.inner = inner;
                Ok(())
            },
            Err(e) => Err(e),
        }
    }

    /// Takes an owned snapshot of the published router, good for the
    /// lifetime of one request.
    pub fn load(&self) -> (r: AppRouter)
        ensures
            r.code@ == self.spec_code(),
            r.spec_routes() == self.spec_routes(),
            self.wf() ==> r.wf(),
    {
        self.inner.duplicate()
    }
}

/// Old-snapshot liveness: a snapshot loaded before a swap still matches
/// requests against the routes published when it was taken, whatever the
/// handle publishes afterwards. `load` pins the snapshot to the published
/// routes, `swap` rebuilds only the handle through its own `&mut`
/// reference, and a snapshot is an owned value — so the swapped-in state
/// `after` does not enter into the snapshot's matching at all.
pub proof fn lemma_old_snapshot_serves_old_routes(
    snapshot: AppRouter,
    before: SwappableAppRouter,
    after: SwappableAppRouter,
    method: Seq<char>,
    path: Seq<char>,
)
    requires
        snapshot.spec_routes() == before.spec_routes(),
    ensures
        spec_best_route(snapshot.spec_routes(), method, spec_path_segments(path))
            == spec_best_route(before.spec_routes(), method, spec_path_segments(path)),
{
}

} // verus!


