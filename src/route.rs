//! Route descriptors: a method, a validated template and the handler's parameters
//! bound to the template's names.
use vstd::prelude::*;
use crate::text::str_eq;
use crate::template::{
    Segment, SegmentView, Template, TemplateView, TemplateError, parse_template, parse_template_spec,
};

verus! {

/// The HTTP method of a route.
#[derive(Clone, Copy, Debug, PartialEq, Eq, Structural)]
pub enum Method {
    Get,
    Post,
    Put,
    Delete,
    Patch,
    Head,
    Options,
    Trace,
    Connect,
}

/// A parameter of a handler function, as its signature declares it.
#[derive(Clone, Debug, PartialEq, Eq)]
pub struct HandlerParam {
    pub name: String,
    /// Its type is an optional wrapper (`Option<T>`).
    pub optional: bool,
    /// It is bound from another source than the template (state, body, headers).
    pub extractor: bool,
}

pub struct HandlerParamView {
    pub name: Seq<char>,
    pub optional: bool,
    pub extractor: bool,
}

impl View for HandlerParam {
    type V = HandlerParamView;

    open spec fn view(&self) -> HandlerParamView {
        HandlerParamView { name: self.name@, optional: self.optional, extractor: self.extractor }
    }
}

/// A query parameter of a route, and whether a request must carry it.
#[derive(Clone, Debug, PartialEq, Eq)]
pub struct QueryParam {
    pub name: String,
    pub required: bool,
}

pub struct QueryParamView {
    pub name: Seq<char>,
    pub required: bool,
}

impl View for QueryParam {
    type V = QueryParamView;

    open spec fn view(&self) -> QueryParamView {
        QueryParamView { name: self.name@, required: self.required }
    }
}

/// A validated route.
#[derive(Clone, Debug, PartialEq, Eq)]
pub struct RouteDescriptor {
    pub method: Method,
    pub segments: Vec<Segment>,
    pub query_params: Vec<QueryParam>,
}

pub struct RouteDescriptorView {
    pub method: Method,
    pub segments: Seq<SegmentView>,
    pub query_params: Seq<QueryParamView>,
}

impl View for RouteDescriptor {
    type V = RouteDescriptorView;

    open spec fn view(&self) -> RouteDescriptorView {
        RouteDescriptorView {
            method: self.method,
            segments: self.segments@.map_values(|s: Segment| s@),
            query_params: self.query_params@.map_values(|q: QueryParam| q@),
        }
    }
}

/// Why a route was refused.
#[derive(Clone, Copy, Debug, PartialEq, Eq, Structural)]
pub enum RouteError {
    /// The template itself is malformed.
    Template(TemplateError),
    /// A name of the template has no handler parameter of that name.
    UnmatchedName,
    /// A handler parameter is neither named in the template nor bound otherwise.
    UnboundParam,
}

pub open spec fn params_view(ps: Seq<HandlerParam>) -> Seq<HandlerParamView> {
    ps.map_values(|p: HandlerParam| p@)
}

/// The names that the path segments bind, in order.
pub open spec fn path_names(segs: Seq<SegmentView>) -> Seq<Seq<char>>
    decreases segs.len(),
{
    if segs.len() == 0 {
        Seq::empty()
    } else {
        let prev = path_names(segs.drop_last());
        match segs.last() {
            SegmentView::PathParam(n) => prev.push(n),
            SegmentView::NamedWildcard(n) => prev.push(n),
            _ => prev,
        }
    }
}

/// Every name that a template binds: those of the path, then those of the query.
pub open spec fn template_names(tv: TemplateView) -> Seq<Seq<char>> {
    path_names(tv.segments) + tv.query
}

/// Some handler parameter that takes its value from the template is named `n`.
pub open spec fn bindable(ps: Seq<HandlerParamView>, n: Seq<char>) -> bool {
    exists|i: int| 0 <= i < ps.len() && !(#[trigger] ps[i]).extractor && ps[i].name == n
}

/// Whether the first template-bound handler parameter named `n` is optional.
pub open spec fn optional_of(ps: Seq<HandlerParamView>, n: Seq<char>) -> bool
    decreases ps.len(),
{
    if ps.len() == 0 {
        false
    } else if !ps[0].extractor && ps[0].name == n {
        ps[0].optional
    } else {
        optional_of(ps.drop_first(), n)
    }
}

pub open spec fn all_bindable(ps: Seq<HandlerParamView>, names: Seq<Seq<char>>) -> bool {
    forall|i: int| 0 <= i < names.len() ==> bindable(ps, #[trigger] names[i])
}

pub open spec fn all_named(ps: Seq<HandlerParamView>, names: Seq<Seq<char>>) -> bool {
    forall|j: int| 0 <= j < ps.len() ==> (#[trigger] ps[j]).extractor || names.contains(ps[j].name)
}

/// The query parameters of a route: required unless the handler takes them optionally.
pub open spec fn infer_query(ps: Seq<HandlerParamView>, query: Seq<Seq<char>>) -> Seq<QueryParamView> {
    query.map_values(|q: Seq<char>| QueryParamView { name: q, required: !optional_of(ps, q) })
}

/// Binding of a parsed template to a handler's parameters.
pub open spec fn bind_spec(tv: TemplateView, ps: Seq<HandlerParamView>) -> Result<Seq<QueryParamView>, RouteError> {
    if !all_bindable(ps, template_names(tv)) {
        Err(RouteError::UnmatchedName)
    } else if !all_named(ps, template_names(tv)) {
        Err(RouteError::UnboundParam)
    } else {
        Ok(infer_query(ps, tv.query))
    }
}

/// The route that a method, a template and a handler signature describe.
pub open spec fn route_spec(method: Method, t: Seq<char>, ps: Seq<HandlerParamView>) -> Result<RouteDescriptorView, RouteError> {
    match parse_template_spec(t) {
        Err(e) => Err(RouteError::Template(e)),
        Ok(tv) => match bind_spec(tv, ps) {
            Err(e) => Err(e),
            Ok(q) => Ok(RouteDescriptorView { method, segments: tv.segments, query_params: q }),
        },
    }
}

fn names_of_path(segs: &Vec<Segment>) -> (r: Vec<String>)
    ensures
        r@.map_values(|n: String| n@) == path_names(segs@.map_values(|s: Segment| s@)),
{
    let ghost sv = segs@.map_values(|s: Segment| s@);
    let mut names: Vec<String> = Vec::new();
    let mut i: usize = 0;
    proof {
        assert(sv.take(0) =~= Seq::<SegmentView>::empty());
        assert(names@.map_values(|n: String| n@) =~= Seq::<Seq<char>>::empty());
    }
    while i < segs.len()
        invariant
            sv == segs@.map_values(|s: Segment| s@),
            i <= segs.len(),
            names@.map_values(|n: String| n@) == path_names(sv.take(i as int)),
        decreases segs.len() - i,
    {
        let ghost before = names@;
        proof {
            assert(sv.take(i + 1).drop_last() =~= sv.take(i as int));
        }
        match &segs[i] {
            Segment::PathParam(n) => {
                names.push(n.clone());
                assert(names@.map_values(|n: String| n@) =~= before.map_values(|n: String| n@).push(n@));
            },
            Segment::NamedWildcard(n) => {
                names.push(n.clone());
                assert(names@.map_values(|n: String| n@) =~= before.map_values(|n: String| n@).push(n@));
            },
            _ => {},
        }
        i = i + 1;
    }
    proof {
        assert(sv.take(segs.len() as int) =~= sv);
    }
    names
}

fn is_bindable(ps: &Vec<HandlerParam>, n: &str) -> (r: bool)
    ensures
        r == bindable(params_view(ps@), n@),
{
    let ghost pv = params_view(ps@);
    let mut i: usize = 0;
    while i < ps.len()
        invariant
            pv == params_view(ps@),
            i <= ps.len(),
            forall|j: int| 0 <= j < i ==> (#[trigger] pv[j]).extractor || pv[j].name != n@,
        decreases ps.len() - i,
    {
        if !ps[i].extractor && str_eq(ps[i].name.as_str(), n) {
            assert(pv[i as int].name == n@);
            return true;
        }
        i = i + 1;
    }
    false
}

fn is_optional(ps: &Vec<HandlerParam>, n: &str) -> (r: bool)
    ensures
        r == optional_of(params_view(ps@), n@),
{
    let ghost pv = params_view(ps@);
    let mut i: usize = 0;
    assert(pv.skip(0) =~= pv);
    while i < ps.len()
        invariant
            pv == params_view(ps@),
            i <= ps.len(),
            optional_of(pv, n@) == optional_of(pv.skip(i as int), n@),
        decreases ps.len() - i,
    {
        proof {
            assert(pv.skip(i as int).drop_first() =~= pv.skip(i + 1));
            assert(pv.skip(i as int)[0] == pv[i as int]);
        }
        if !ps[i].extractor && str_eq(ps[i].name.as_str(), n) {
            return ps[i].optional;
        }
        i = i + 1;
    }
    proof {
        assert(pv.skip(i as int).len() == 0);
    }
    false
}

fn contains_name(names: &Vec<String>, n: &str) -> (r: bool)
    ensures
        r == names@.map_values(|x: String| x@).contains(n@),
{
    let ghost nv = names@.map_values(|x: String| x@);
    let mut i: usize = 0;
    while i < names.len()
        invariant
            nv == names@.map_values(|x: String| x@),
            i <= names.len(),
            forall|j: int| 0 <= j < i ==> nv[j] != n@,
        decreases names.len() - i,
    {
        if str_eq(names[i].as_str(), n) {
            assert(nv[i as int] == n@);
            return true;
        }
        i = i + 1;
    }
    false
}

/// Binds a parsed template to a handler's parameters, and derives for each query
/// name whether it is required.
pub fn bind(t: &Template, ps: &Vec<HandlerParam>) -> (r: Result<Vec<QueryParam>, RouteError>)
    ensures
        match r {
            Ok(q) => bind_spec(t@, params_view(ps@)) == Ok::<Seq<QueryParamView>, RouteError>(
                q@.map_values(|x: QueryParam| x@),
            ),
            Err(e) => bind_spec(t@, params_view(ps@)) == Err::<Seq<QueryParamView>, RouteError>(e),
        },
{
    let ghost pv = params_view(ps@);
    let mut names = names_of_path(&t.segments);
    let mut k: usize = 0;
    let ghost pn = names@.map_values(|n: String| n@);
    while k < t.query.len()
        invariant
            k <= t.query@.len(),
            names@.map_values(|n: String| n@) == pn + t@.query.take(k as int),
        decreases t.query.len() - k,
    {
        let ghost before = names@;
        names.push(t.query[k].clone());
        proof {
            assert(t@.query.take(k + 1) =~= t@.query.take(k as int).push(t@.query[k as int]));
            assert(names@.map_values(|n: String| n@) =~= before.map_values(|n: String| n@).push(t@.query[k as int]));
        }
        k = k + 1;
    }
    let ghost tn = names@.map_values(|n: String| n@);
    proof {
        assert(t@.query.take(t.query.len() as int) =~= t@.query);
        assert(tn == template_names(t@));
    }
    let mut i: usize = 0;
    while i < names.len()
        invariant
            tn == names@.map_values(|n: String| n@),
            tn == template_names(t@),
            pv == params_view(ps@),
            i <= names.len(),
            forall|j: int| 0 <= j < i ==> bindable(pv, #[trigger] tn[j]),
        decreases names.len() - i,
    {
        if !is_bindable(ps, names[i].as_str()) {
            assert(!bindable(pv, tn[i as int]));
            return Err(RouteError::UnmatchedName);
        }
        i = i + 1;
    }
    let mut j: usize = 0;
    while j < ps.len()
        invariant
            tn == names@.map_values(|n: String| n@),
            tn == template_names(t@),
            pv == params_view(ps@),
            all_bindable(pv, tn),
            j <= ps.len(),
            forall|m: int| 0 <= m < j ==> (#[trigger] pv[m]).extractor || tn.contains(pv[m].name),
        decreases ps.len() - j,
    {
        if !ps[j].extractor && !contains_name(&names, ps[j].name.as_str()) {
            assert(!pv[j as int].extractor && !tn.contains(pv[j as int].name));
            return Err(RouteError::UnboundParam);
        }
        j = j + 1;
    }
    let mut out: Vec<QueryParam> = Vec::new();
    let mut m: usize = 0;
    while m < t.query.len()
        invariant
            pv == params_view(ps@),
            m <= t.query@.len(),
            out@.map_values(|x: QueryParam| x@) == infer_query(pv, t@.query.take(m as int)),
        decreases t.query.len() - m,
    {
        let optional = is_optional(ps, t.query[m].as_str());
        let ghost before = out@;
        out.push(QueryParam { name: t.query[m].clone(), required: !optional });
        proof {
            let qm = t@.query[m as int];
            assert(qm == t.query@[m as int]@);
            assert(t@.query.take(m + 1) =~= t@.query.take(m as int).push(qm));
            assert(infer_query(pv, t@.query.take(m + 1)) =~= infer_query(pv, t@.query.take(m as int)).push(
                QueryParamView { name: qm, required: !optional_of(pv, qm) },
            ));
            assert(out@.map_values(|x: QueryParam| x@) =~= before.map_values(|x: QueryParam| x@).push(
                QueryParamView { name: qm, required: !optional_of(pv, qm) },
            ));
            assert(out@.map_values(|x: QueryParam| x@) =~= infer_query(pv, t@.query.take(m + 1)));
        }
        m = m + 1;
    }
    proof {
        assert(t@.query.take(t.query.len() as int) =~= t@.query);
    }
    Ok(out)
}

/// Builds the route that `method` and `template` describe for a handler with
/// parameters `ps`, or says why there is none.
pub fn route(method: Method, template: &str, ps: &Vec<HandlerParam>) -> (r: Result<RouteDescriptor, RouteError>)
    ensures
        match r {
            Ok(d) => route_spec(method, template@, params_view(ps@)) == Ok::<RouteDescriptorView, RouteError>(d@),
            Err(e) => route_spec(method, template@, params_view(ps@)) == Err::<RouteDescriptorView, RouteError>(e),
        },
{
    let t = match parse_template(template) {
        Ok(t) => t,
        Err(e) => return Err(RouteError::Template(e)),
    };
    match bind(&t, ps) {
        Ok(query_params) => Ok(RouteDescriptor { method, segments: t.segments, query_params }),
        Err(e) => Err(e),
    }
}

} // verus!
