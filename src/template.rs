//! Path and query templates: `/item/:id/*rest?amount&offset`.
use vstd::prelude::*;
use crate::text::{split, index_of, split_on, find_char, str_eq};

verus! {

/// One component of a path template.
#[derive(Clone, Debug, PartialEq, Eq)]
pub enum Segment {
    /// Matches exactly this text.
    Literal(String),
    /// `:name`, matches one component and binds it.
    PathParam(String),
    /// `*`, matches the rest of the path without binding it.
    Wildcard,
    /// `*name`, matches the rest of the path and binds it as one string.
    NamedWildcard(String),
}

pub enum SegmentView {
    Literal(Seq<char>),
    PathParam(Seq<char>),
    Wildcard,
    NamedWildcard(Seq<char>),
}

impl View for Segment {
    type V = SegmentView;

    open spec fn view(&self) -> SegmentView {
        match self {
            Segment::Literal(t) => SegmentView::Literal(t@),
            Segment::PathParam(n) => SegmentView::PathParam(n@),
            Segment::Wildcard => SegmentView::Wildcard,
            Segment::NamedWildcard(n) => SegmentView::NamedWildcard(n@),
        }
    }
}

/// A parsed template: its path segments and its query parameter names, in order.
#[derive(Clone, Debug, PartialEq, Eq)]
pub struct Template {
    pub segments: Vec<Segment>,
    pub query: Vec<String>,
}

pub struct TemplateView {
    pub segments: Seq<SegmentView>,
    pub query: Seq<Seq<char>>,
}

impl View for Template {
    type V = TemplateView;

    open spec fn view(&self) -> TemplateView {
        TemplateView {
            segments: self.segments@.map_values(|s: Segment| s@),
            query: self.query@.map_values(|q: String| q@),
        }
    }
}

/// Why a template was refused.
#[derive(Clone, Copy, Debug, PartialEq, Eq, Structural)]
pub enum TemplateError {
    /// A `:` or `*` marker with no name behind it where a name is needed (`/:/x`).
    EmptyParamName,
    /// A wildcard that is not the final segment, which also covers a second wildcard.
    MisplacedWildcard,
    /// An empty name in the query list (`?a&&b`, or a `?` with nothing after it).
    EmptyQueryName,
}

/// What a single non-empty path component stands for.
pub open spec fn classify(c: Seq<char>) -> SegmentView {
    if c.len() > 0 && c[0] == ':' {
        SegmentView::PathParam(c.drop_first())
    } else if c =~= seq!['*'] {
        SegmentView::Wildcard
    } else if c.len() > 0 && c[0] == '*' {
        SegmentView::NamedWildcard(c.drop_first())
    } else {
        SegmentView::Literal(c)
    }
}

/// The non-empty pieces, in order.
pub open spec fn nonempty_parts(parts: Seq<Seq<char>>) -> Seq<Seq<char>>
    decreases parts.len(),
{
    if parts.len() == 0 {
        parts
    } else if parts.last().len() == 0 {
        nonempty_parts(parts.drop_last())
    } else {
        nonempty_parts(parts.drop_last()).push(parts.last())
    }
}

/// The segments that a path denotes, before validation.
pub open spec fn path_segments(path: Seq<char>) -> Seq<SegmentView> {
    nonempty_parts(split(path, '/')).map_values(|c: Seq<char>| classify(c))
}

pub open spec fn is_wildcard(s: SegmentView) -> bool {
    s is Wildcard || s is NamedWildcard
}

pub open spec fn has_empty_name(s: SegmentView) -> bool {
    match s {
        SegmentView::PathParam(n) => n.len() == 0,
        SegmentView::NamedWildcard(n) => n.len() == 0,
        _ => false,
    }
}

/// A wildcard may only stand last, so there is at most one.
pub open spec fn wildcard_final(segs: Seq<SegmentView>) -> bool {
    forall|i: int| 0 <= i < segs.len() - 1 ==> !is_wildcard(#[trigger] segs[i])
}

pub open spec fn names_present(segs: Seq<SegmentView>) -> bool {
    forall|i: int| 0 <= i < segs.len() ==> !has_empty_name(#[trigger] segs[i])
}

/// Parsing of the path part of a template.
pub open spec fn parse_path_spec(path: Seq<char>) -> Result<Seq<SegmentView>, TemplateError> {
    let segs = path_segments(path);
    if !names_present(segs) {
        Err(TemplateError::EmptyParamName)
    } else if !wildcard_final(segs) {
        Err(TemplateError::MisplacedWildcard)
    } else {
        Ok(segs)
    }
}

/// The query names of a template: the pieces after the first `?`, split at `&`.
pub open spec fn query_names(t: Seq<char>) -> Seq<Seq<char>> {
    let k = index_of(t, '?');
    if k < t.len() {
        split(t.skip(k + 1), '&')
    } else {
        Seq::empty()
    }
}

pub open spec fn no_empty(names: Seq<Seq<char>>) -> bool {
    forall|i: int| 0 <= i < names.len() ==> (#[trigger] names[i]).len() > 0
}

/// Parsing of a whole template `<path>[?<query-list>]`.
pub open spec fn parse_template_spec(t: Seq<char>) -> Result<TemplateView, TemplateError> {
    match parse_path_spec(t.take(index_of(t, '?'))) {
        Err(e) => Err(e),
        Ok(segs) => if no_empty(query_names(t)) {
            Ok(TemplateView { segments: segs, query: query_names(t) })
        } else {
            Err(TemplateError::EmptyQueryName)
        },
    }
}

/// Two segments match the same requests: same kind, same literal text; names
/// of parameters do not count.
pub open spec fn same_shape_seg(a: SegmentView, b: SegmentView) -> bool {
    match (a, b) {
        (SegmentView::Literal(x), SegmentView::Literal(y)) => x == y,
        (SegmentView::PathParam(_), SegmentView::PathParam(_)) => true,
        (SegmentView::Wildcard, SegmentView::Wildcard) => true,
        (SegmentView::NamedWildcard(_), SegmentView::NamedWildcard(_)) => true,
        _ => false,
    }
}

/// Two templates are structurally equal when their segments are, element by element.
pub open spec fn same_shape_spec(a: Seq<SegmentView>, b: Seq<SegmentView>) -> bool {
    a.len() == b.len() && forall|i: int| 0 <= i < a.len() ==> same_shape_seg(#[trigger] a[i], b[i])
}

fn same_shape_segment(a: &Segment, b: &Segment) -> (r: bool)
    ensures
        r == same_shape_seg(a@, b@),
{
    match (a, b) {
        (Segment::Literal(x), Segment::Literal(y)) => str_eq(x.as_str(), y.as_str()),
        (Segment::PathParam(_), Segment::PathParam(_)) => true,
        (Segment::Wildcard, Segment::Wildcard) => true,
        (Segment::NamedWildcard(_), Segment::NamedWildcard(_)) => true,
        _ => false,
    }
}

/// Whether two segment sequences match the same paths, by kind and literal text.
pub fn same_shape(a: &Vec<Segment>, b: &Vec<Segment>) -> (r: bool)
    ensures
        r == same_shape_spec(a@.map_values(|s: Segment| s@), b@.map_values(|s: Segment| s@)),
{
    let ghost av = a@.map_values(|s: Segment| s@);
    let ghost bv = b@.map_values(|s: Segment| s@);
    if a.len() != b.len() {
        return false;
    }
    let mut i: usize = 0;
    while i < a.len()
        invariant
            av == a@.map_values(|s: Segment| s@),
            bv == b@.map_values(|s: Segment| s@),
            a.len() == b.len(),
            i <= a.len(),
            forall|j: int| 0 <= j < i ==> same_shape_seg(#[trigger] av[j], bv[j]),
        decreases a.len() - i,
    {
        if !same_shape_segment(&a[i], &b[i]) {
            assert(!same_shape_seg(av[i as int], bv[i as int]));
            return false;
        }
        i = i + 1;
    }
    true
}

/// A path whose wildcard is followed by another segment is refused.
pub proof fn lemma_wildcard_not_final_rejected(path: Seq<char>, i: int)
    requires
        0 <= i < path_segments(path).len() - 1,
        is_wildcard(path_segments(path)[i]),
    ensures
        parse_path_spec(path) is Err,
{
}

fn classify_component(c: &str) -> (r: Segment)
    ensures
        c@.len() > 0 ==> r@ == classify(c@),
{
    let n = c.unicode_len();
    if n == 0 {
        return Segment::Literal(String::from_str(c));
    }
    let first = c.get_char(0);
    if first == ':' {
        Segment::PathParam(String::from_str(c.substring_char(1, n)))
    } else if first == '*' && n == 1 {
        proof {
            assert(c@ =~= seq!['*']);
        }
        Segment::Wildcard
    } else if first == '*' {
        proof {
            assert(!(c@ =~= seq!['*']));
        }
        Segment::NamedWildcard(String::from_str(c.substring_char(1, n)))
    } else {
        proof {
            assert(!(c@ =~= seq!['*']));
        }
        Segment::Literal(String::from_str(c))
    }
}

/// The segments of `path`, before validation.
fn segments_of(path: &str) -> (r: Vec<Segment>)
    ensures
        r@.map_values(|s: Segment| s@) == path_segments(path@),
{
    let parts = split_on(path, '/');
    let ghost pv = parts@.map_values(|p: String| p@);
    let mut segs: Vec<Segment> = Vec::new();
    let mut i: usize = 0;
    proof {
        assert(pv.take(0) =~= Seq::<Seq<char>>::empty());
        assert(segs@.map_values(|s: Segment| s@) =~= Seq::<SegmentView>::empty());
    }
    while i < parts.len()
        invariant
            pv == parts@.map_values(|p: String| p@),
            pv == split(path@, '/'),
            i <= parts.len(),
            segs@.map_values(|s: Segment| s@) == nonempty_parts(pv.take(i as int)).map_values(
                |c: Seq<char>| classify(c),
            ),
        decreases parts.len() - i,
    {
        let part = &parts[i];
        let ghost before = segs@;
        proof {
            assert(pv.take(i + 1).drop_last() =~= pv.take(i as int));
            assert(pv.take(i + 1).last() == part@);
        }
        if part.unicode_len() > 0 {
            let seg = classify_component(part.as_str());
            segs.push(seg);
            proof {
                assert(segs@.map_values(|s: Segment| s@) =~= before.map_values(|s: Segment| s@).push(
                    classify(part@),
                ));
                assert(nonempty_parts(pv.take(i + 1)) == nonempty_parts(pv.take(i as int)).push(part@));
                assert(nonempty_parts(pv.take(i + 1)).map_values(|c: Seq<char>| classify(c)) =~= 
                    nonempty_parts(pv.take(i as int)).map_values(|c: Seq<char>| classify(c)).push(classify(part@)));
            }
        }
        i = i + 1;
    }
    proof {
        assert(pv.take(parts.len() as int) =~= pv);
    }
    segs
}

/// Parses the path part of a template into its segments.
pub fn parse_path(path: &str) -> (r: Result<Vec<Segment>, TemplateError>)
    ensures
        match r {
            Ok(v) => parse_path_spec(path@) == Ok::<Seq<SegmentView>, TemplateError>(
                v@.map_values(|s: Segment| s@),
            ),
            Err(e) => parse_path_spec(path@) == Err::<Seq<SegmentView>, TemplateError>(e),
        },
{
    let segs = segments_of(path);
    let ghost sv = segs@.map_values(|s: Segment| s@);
    let mut i: usize = 0;
    while i < segs.len()
        invariant
            sv == segs@.map_values(|s: Segment| s@),
            sv == path_segments(path@),
            i <= segs.len(),
            forall|j: int| 0 <= j < i ==> !has_empty_name(#[trigger] sv[j]),
        decreases segs.len() - i,
    {
        let empty = match &segs[i] {
            Segment::PathParam(n) => n.unicode_len() == 0,
            Segment::NamedWildcard(n) => n.unicode_len() == 0,
            _ => false,
        };
        if empty {
            assert(has_empty_name(sv[i as int]));
            return Err(TemplateError::EmptyParamName);
        }
        i = i + 1;
    }
    let mut k: usize = 0;
    while segs.len() > 0 && k < segs.len() - 1
        invariant
            sv == segs@.map_values(|s: Segment| s@),
            sv == path_segments(path@),
            names_present(sv),
            k <= segs.len(),
            forall|j: int| 0 <= j < k ==> !is_wildcard(#[trigger] sv[j]),
        decreases segs.len() - k,
    {
        let wild = match &segs[k] {
            Segment::Wildcard => true,
            Segment::NamedWildcard(_) => true,
            _ => false,
        };
        if wild {
            assert(is_wildcard(sv[k as int]));
            return Err(TemplateError::MisplacedWildcard);
        }
        k = k + 1;
    }
    Ok(segs)
}

/// Parses a template `<path>[?<query-list>]`: the path up to the first `?`,
/// then the query names separated by `&`.
pub fn parse_template(t: &str) -> (r: Result<Template, TemplateError>)
    ensures
        match r {
            Ok(v) => parse_template_spec(t@) == Ok::<TemplateView, TemplateError>(v@),
            Err(e) => parse_template_spec(t@) == Err::<TemplateView, TemplateError>(e),
        },
{
    let n = t.unicode_len();
    let k = find_char(t, '?');
    let segments = match parse_path(t.substring_char(0, k)) {
        Ok(s) => s,
        Err(e) => {
            proof {
                assert(t@.subrange(0, k as int) =~= t@.take(k as int));
            }
            return Err(e);
        },
    };
    proof {
        assert(t@.subrange(0, k as int) =~= t@.take(k as int));
    }
    let query = if k < n {
        let q = split_on(t.substring_char(k + 1, n), '&');
        proof {
            assert(t@.subrange(k + 1, n as int) =~= t@.skip(k + 1));
        }
        q
    } else {
        let none: Vec<String> = Vec::new();
        proof {
            assert(none@.map_values(|q: String| q@) =~= Seq::<Seq<char>>::empty());
        }
        none
    };
    let ghost qv = query@.map_values(|q: String| q@);
    assert(qv == query_names(t@));
    let mut i: usize = 0;
    while i < query.len()
        invariant
            qv == query@.map_values(|q: String| q@),
            qv == query_names(t@),
            k as int == index_of(t@, '?'),
            parse_path_spec(t@.take(k as int)) == Ok::<Seq<SegmentView>, TemplateError>(
                segments@.map_values(|s: Segment| s@),
            ),
            i <= query.len(),
            forall|j: int| 0 <= j < i ==> (#[trigger] qv[j]).len() > 0,
        decreases query.len() - i,
    {
        if query[i].unicode_len() == 0 {
            assert(qv[i as int].len() == 0);
            return Err(TemplateError::EmptyQueryName);
        }
        i = i + 1;
    }
    Ok(Template { segments, query })
}

} // verus!
