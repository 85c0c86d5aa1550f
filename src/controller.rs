//! Controller composition: which members are routes, and the sequence of router
//! calls that builds the controller's router.
use vstd::prelude::*;
use crate::text::str_eq;
use crate::config::{
    middleware_key,
    opt_view,
    AttrEntry, AttrEntryView, ConfigError, ControllerSpecView, parse_attrs,
    parse_attrs_spec, entries_view,
};

verus! {

/// A member of the controller's implementation block.
#[derive(Clone, Debug, PartialEq, Eq)]
pub struct Member {
    pub name: String,
    /// The member is a function (not a constant or a type).
    pub is_fn: bool,
    /// The paths of its attributes, such as `route` or `doc`.
    pub attrs: Vec<String>,
}

pub struct MemberView {
    pub name: Seq<char>,
    pub is_fn: bool,
    pub attrs: Seq<Seq<char>>,
}

impl View for Member {
    type V = MemberView;

    open spec fn view(&self) -> MemberView {
        MemberView { name: self.name@, is_fn: self.is_fn, attrs: self.attrs@.map_values(|a: String| a@) }
    }
}

/// The type that a controller is declared on, and its members in source order.
#[derive(Clone, Debug, PartialEq, Eq)]
pub struct ControllerUnit {
    pub self_type: String,
    pub members: Vec<Member>,
}

pub struct ControllerUnitView {
    pub self_type: Seq<char>,
    pub members: Seq<MemberView>,
}

impl View for ControllerUnit {
    type V = ControllerUnitView;

    open spec fn view(&self) -> ControllerUnitView {
        ControllerUnitView { self_type: self.self_type@, members: self.members@.map_values(|m: Member| m@) }
    }
}

/// One call in the construction of a controller's router.
#[derive(Clone, Debug, PartialEq, Eq)]
pub enum RouterCall {
    /// `.typed_route(Type::handler)`, with the handler's name.
    TypedRoute(String),
    /// `.layer(expr)`, with the middleware expression.
    Layer(String),
    /// `.with_state(state)`.
    WithState,
    /// `Router::new().nest(prefix, router)`, with the prefix expression.
    Nest(String),
}

pub enum RouterCallView {
    TypedRoute(Seq<char>),
    Layer(Seq<char>),
    WithState,
    Nest(Seq<char>),
}

impl View for RouterCall {
    type V = RouterCallView;

    open spec fn view(&self) -> RouterCallView {
        match self {
            RouterCall::TypedRoute(h) => RouterCallView::TypedRoute(h@),
            RouterCall::Layer(m) => RouterCallView::Layer(m@),
            RouterCall::WithState => RouterCallView::WithState,
            RouterCall::Nest(p) => RouterCallView::Nest(p@),
        }
    }
}

/// Everything needed to build a controller's router.
#[derive(Clone, Debug, PartialEq, Eq)]
pub struct AssemblyPlan {
    pub self_type: String,
    pub state_type: String,
    pub route_fns: Vec<String>,
    pub middlewares: Vec<String>,
    /// The prefix to nest under; absent when the routes stay at the root.
    pub nest_prefix: Option<String>,
}

pub struct AssemblyPlanView {
    pub self_type: Seq<char>,
    pub state_type: Seq<char>,
    pub route_fns: Seq<Seq<char>>,
    pub middlewares: Seq<Seq<char>>,
    pub nest_prefix: Option<Seq<char>>,
}

impl View for AssemblyPlan {
    type V = AssemblyPlanView;

    open spec fn view(&self) -> AssemblyPlanView {
        AssemblyPlanView {
            self_type: self.self_type@,
            state_type: self.state_type@,
            route_fns: self.route_fns@.map_values(|f: String| f@),
            middlewares: self.middlewares@.map_values(|m: String| m@),
            nest_prefix: match self.nest_prefix {
                Some(p) => Some(p@),
                None => None,
            },
        }
    }
}

pub open spec fn route_attr() -> Seq<char> {
    seq!['r', 'o', 'u', 't', 'e']
}

/// The unit type, the state when none is configured.
pub open spec fn unit_type() -> Seq<char> {
    seq!['(', ')']
}

/// The string literal `"/"`, the one prefix that is not nested.
pub open spec fn root_literal() -> Seq<char> {
    seq!['"', '/', '"']
}

pub open spec fn misplaced_route(m: MemberView) -> bool {
    !m.is_fn && m.attrs.contains(route_attr())
}

/// No member that is not a function carries the `route` attribute.
pub open spec fn members_well_placed(ms: Seq<MemberView>) -> bool {
    forall|i: int| 0 <= i < ms.len() ==> !misplaced_route(#[trigger] ms[i])
}

pub open spec fn is_route(m: MemberView) -> bool {
    m.is_fn && m.attrs.contains(route_attr())
}

/// The names of the route functions, in declaration order.
pub open spec fn route_fns_spec(ms: Seq<MemberView>) -> Seq<Seq<char>>
    decreases ms.len(),
{
    if ms.len() == 0 {
        Seq::empty()
    } else if is_route(ms.last()) {
        route_fns_spec(ms.drop_last()).push(ms.last().name)
    } else {
        route_fns_spec(ms.drop_last())
    }
}

/// The prefix to nest under: none for the default and for the literal `"/"`.
pub open spec fn nest_prefix_spec(path: Option<Seq<char>>) -> Option<Seq<char>> {
    match path {
        None => None,
        Some(p) => if p == root_literal() {
            None
        } else {
            Some(p)
        },
    }
}

pub open spec fn plan_spec(c: ControllerSpecView, u: ControllerUnitView) -> AssemblyPlanView {
    AssemblyPlanView {
        self_type: u.self_type,
        state_type: match c.state {
            Some(s) => s,
            None => unit_type(),
        },
        route_fns: route_fns_spec(u.members),
        middlewares: c.middlewares,
        nest_prefix: nest_prefix_spec(c.path),
    }
}

/// The calls that build the router: each route, each layer, the state, then the
/// nesting if there is a prefix.
pub open spec fn emit_spec(p: AssemblyPlanView) -> Seq<RouterCallView> {
    p.route_fns.map_values(|f: Seq<char>| RouterCallView::TypedRoute(f)) + p.middlewares.map_values(
        |m: Seq<char>| RouterCallView::Layer(m),
    ) + seq![RouterCallView::WithState] + match p.nest_prefix {
        Some(x) => seq![RouterCallView::Nest(x)],
        None => Seq::empty(),
    }
}

/// Whether a member is a function that carries the `route` attribute.
fn member_is_route(m: &Member) -> (r: bool)
    ensures
        r == is_route(m@),
{
    if !m.is_fn {
        return false;
    }
    has_route_attr(m)
}

/// Whether a member carries the `route` attribute, function or not.
fn has_route_attr(m: &Member) -> (r: bool)
    ensures
        r == m@.attrs.contains(route_attr()),
{
    let ghost av = m@.attrs;
    proof {
        reveal_strlit("route");
    }
    let mut i: usize = 0;
    while i < m.attrs.len()
        invariant
            av == m@.attrs,
            "route"@ == route_attr(),
            i <= m.attrs.len(),
            forall|j: int| 0 <= j < i ==> av[j] != route_attr(),
        decreases m.attrs.len() - i,
    {
        if str_eq(m.attrs[i].as_str(), "route") {
            assert(av[i as int] == route_attr());
            assert(av.contains(route_attr()));
            return true;
        }
        i = i + 1;
    }
    false
}

/// The names of the unit's route functions, in declaration order.
pub fn route_fns(unit: &ControllerUnit) -> (r: Vec<String>)
    ensures
        r@.map_values(|f: String| f@) == route_fns_spec(unit@.members),
{
    let ghost mv = unit@.members;
    let mut out: Vec<String> = Vec::new();
    let mut i: usize = 0;
    proof {
        assert(mv.take(0) =~= Seq::<MemberView>::empty());
        assert(out@.map_values(|f: String| f@) =~= Seq::<Seq<char>>::empty());
    }
    while i < unit.members.len()
        invariant
            mv == unit@.members,
            i <= unit.members.len(),
            out@.map_values(|f: String| f@) == route_fns_spec(mv.take(i as int)),
        decreases unit.members.len() - i,
    {
        let m = &unit.members[i];
        proof {
            assert(mv.take(i + 1).drop_last() =~= mv.take(i as int));
            assert(mv.take(i + 1).last() == m@);
        }
        if member_is_route(m) {
            let ghost before = out@;
            out.push(m.name.clone());
            assert(out@.map_values(|f: String| f@) =~= before.map_values(|f: String| f@).push(m.name@));
        }
        i = i + 1;
    }
    proof {
        assert(mv.take(unit.members.len() as int) =~= mv);
    }
    out
}

/// Whether every member that carries `route` is a function.
fn routes_on_functions(unit: &ControllerUnit) -> (r: bool)
    ensures
        r == members_well_placed(unit@.members),
{
    let ghost mv = unit@.members;
    let mut i: usize = 0;
    while i < unit.members.len()
        invariant
            mv == unit@.members,
            i <= unit.members.len(),
            forall|j: int| 0 <= j < i ==> !misplaced_route(#[trigger] mv[j]),
        decreases unit.members.len() - i,
    {
        let m = &unit.members[i];
        if !m.is_fn && has_route_attr(m) {
            assert(misplaced_route(mv[i as int]));
            return false;
        }
        i = i + 1;
    }
    true
}

/// Whether an expression is the string literal `"/"`, by its text alone.
fn is_root_literal(p: &str) -> (r: bool)
    ensures
        r == (p@ == root_literal()),
{
    if p.unicode_len() != 3 {
        return false;
    }
    let r = p.get_char(0) == '"' && p.get_char(1) == '/' && p.get_char(2) == '"';
    proof {
        if r {
            assert(p@ =~= root_literal());
        }
    }
    r
}

/// Composes a controller from its configuration entries and its unit: the plan
/// that `emit` turns into router calls. Fails exactly when the configuration
/// does, or else when `route` stands on a member that is not a function.
pub fn controller(attrs: &Vec<AttrEntry>, unit: &ControllerUnit) -> (r: Result<AssemblyPlan, ConfigError>)
    ensures
        match r {
            Ok(p) => parse_attrs_spec(entries_view(attrs@)) is Ok && members_well_placed(unit@.members)
                && p@ == plan_spec(parse_attrs_spec(entries_view(attrs@))->Ok_0, unit@),
            Err(e) => match parse_attrs_spec(entries_view(attrs@)) {
                Err(pe) => e == pe,
                Ok(_) => !members_well_placed(unit@.members) && e == ConfigError::RouteOnNonFunction,
            },
        },
{
    let spec = match parse_attrs(attrs) {
        Ok(c) => c,
        Err(e) => return Err(e),
    };
    if !routes_on_functions(unit) {
        return Err(ConfigError::RouteOnNonFunction);
    }
    proof {
        reveal_strlit("()");
    }
    let state_type = match &spec.state {
        Some(s) => s.clone(),
        None => String::from_str("()"),
    };
    let nest_prefix = match &spec.path {
        Some(p) => if is_root_literal(p.as_str()) {
            None
        } else {
            Some(p.clone())
        },
        None => None,
    };
    let route_fns = route_fns(unit);
    let ghost c = spec@;
    assert(state_type@ == plan_spec(c, unit@).state_type);
    assert(nest_prefix_spec(c.path) == nest_prefix_spec(opt_view(spec.path)));
    let plan = AssemblyPlan {
        self_type: unit.self_type.clone(),
        state_type,
        route_fns,
        middlewares: spec.middlewares,
        nest_prefix,
    };
    assert(plan@.middlewares =~= c.middlewares);
    Ok(plan)
}

/// The router calls that a plan stands for, in the order they are made.
pub fn emit(plan: &AssemblyPlan) -> (r: Vec<RouterCall>)
    ensures
        r@.map_values(|c: RouterCall| c@) == emit_spec(plan@),
{
    let ghost pv = plan@;
    let mut calls: Vec<RouterCall> = Vec::new();
    let mut i: usize = 0;
    while i < plan.route_fns.len()
        invariant
            pv == plan@,
            i <= plan.route_fns.len(),
            calls@.map_values(|c: RouterCall| c@) =~= pv.route_fns.take(i as int).map_values(
                |f: Seq<char>| RouterCallView::TypedRoute(f),
            ),
        decreases plan.route_fns.len() - i,
    {
        let ghost before = calls@;
        calls.push(RouterCall::TypedRoute(plan.route_fns[i].clone()));
        proof {
            assert(pv.route_fns.take(i + 1) =~= pv.route_fns.take(i as int).push(pv.route_fns[i as int]));
            assert(calls@.map_values(|c: RouterCall| c@) =~= before.map_values(|c: RouterCall| c@).push(
                RouterCallView::TypedRoute(pv.route_fns[i as int]),
            ));
        }
        i = i + 1;
    }
    assert(pv.route_fns.take(plan.route_fns.len() as int) =~= pv.route_fns);
    let ghost routes = calls@.map_values(|c: RouterCall| c@);
    let mut j: usize = 0;
    while j < plan.middlewares.len()
        invariant
            pv == plan@,
            j <= plan.middlewares.len(),
            calls@.map_values(|c: RouterCall| c@) =~= routes + pv.middlewares.take(j as int).map_values(
                |m: Seq<char>| RouterCallView::Layer(m),
            ),
        decreases plan.middlewares.len() - j,
    {
        let ghost before = calls@;
        calls.push(RouterCall::Layer(plan.middlewares[j].clone()));
        proof {
            assert(pv.middlewares.take(j + 1) =~= pv.middlewares.take(j as int).push(pv.middlewares[j as int]));
            assert(calls@.map_values(|c: RouterCall| c@) =~= before.map_values(|c: RouterCall| c@).push(
                RouterCallView::Layer(pv.middlewares[j as int]),
            ));
        }
        j = j + 1;
    }
    assert(pv.middlewares.take(plan.middlewares.len() as int) =~= pv.middlewares);
    calls.push(RouterCall::WithState);
    match &plan.nest_prefix {
        Some(p) => calls.push(RouterCall::Nest(p.clone())),
        None => {},
    }
    assert(calls@.map_values(|c: RouterCall| c@) =~= emit_spec(pv));
    calls
}

/// The middleware expressions of the entries, in declaration order.
pub open spec fn middleware_values(es: Seq<AttrEntryView>) -> Seq<Seq<char>>
    decreases es.len(),
{
    if es.len() == 0 {
        Seq::empty()
    } else if es.last().key == middleware_key() {
        middleware_values(es.drop_last()).push(es.last().value)
    } else {
        middleware_values(es.drop_last())
    }
}

/// The layers that a call sequence applies, in order.
pub open spec fn layers(calls: Seq<RouterCallView>) -> Seq<Seq<char>>
    decreases calls.len(),
{
    if calls.len() == 0 {
        Seq::empty()
    } else {
        match calls.last() {
            RouterCallView::Layer(m) => layers(calls.drop_last()).push(m),
            _ => layers(calls.drop_last()),
        }
    }
}

/// The routes that a call sequence makes reachable: for each, the prefix it is
/// nested under and the handler.
pub open spec fn mounted(calls: Seq<RouterCallView>) -> Seq<(Seq<char>, Seq<char>)>
    decreases calls.len(),
{
    if calls.len() == 0 {
        Seq::empty()
    } else {
        let prev = mounted(calls.drop_last());
        match calls.last() {
            RouterCallView::TypedRoute(h) => prev.push((Seq::<char>::empty(), h)),
            RouterCallView::Nest(p) => prev.map_values(|r: (Seq<char>, Seq<char>)| (p + r.0, r.1)),
            _ => prev,
        }
    }
}

proof fn lemma_parsed_middlewares(es: Seq<AttrEntryView>)
    requires
        parse_attrs_spec(es) is Ok,
    ensures
        parse_attrs_spec(es)->Ok_0.middlewares == middleware_values(es),
    decreases es.len(),
{
    if es.len() > 0 {
        lemma_parsed_middlewares(es.drop_last());
    }
}

proof fn lemma_layers_append(a: Seq<RouterCallView>, b: Seq<RouterCallView>)
    ensures
        layers(a + b) == layers(a) + layers(b),
    decreases b.len(),
{
    if b.len() == 0 {
        assert(a + b =~= a);
        assert(layers(a) + layers(b) =~= layers(a));
    } else {
        assert((a + b).drop_last() =~= a + b.drop_last());
        lemma_layers_append(a, b.drop_last());
        assert((a + b).last() == b.last());
        match b.last() {
            RouterCallView::Layer(m) => {
                assert(layers(a) + layers(b.drop_last()).push(m) =~= (layers(a) + layers(b.drop_last())).push(m));
            },
            _ => {},
        }
    }
}

proof fn lemma_layers_of_routes(fs: Seq<Seq<char>>)
    ensures
        layers(fs.map_values(|f: Seq<char>| RouterCallView::TypedRoute(f))) == Seq::<Seq<char>>::empty(),
    decreases fs.len(),
{
    if fs.len() > 0 {
        assert(fs.map_values(|f: Seq<char>| RouterCallView::TypedRoute(f)).drop_last() =~= fs.drop_last().map_values(
            |f: Seq<char>| RouterCallView::TypedRoute(f),
        ));
        lemma_layers_of_routes(fs.drop_last());
    }
}

proof fn lemma_layers_of_layers(ms: Seq<Seq<char>>)
    ensures
        layers(ms.map_values(|m: Seq<char>| RouterCallView::Layer(m))) == ms,
    decreases ms.len(),
{
    if ms.len() > 0 {
        assert(ms.map_values(|m: Seq<char>| RouterCallView::Layer(m)).drop_last() =~= ms.drop_last().map_values(
            |m: Seq<char>| RouterCallView::Layer(m),
        ));
        lemma_layers_of_layers(ms.drop_last());
        assert(ms.drop_last().push(ms.last()) =~= ms);
    }
}

/// The layers are emitted exactly in the order in which the configuration
/// declares its `middleware` entries: nothing is reordered, dropped or repeated.
pub proof fn lemma_middleware_order(es: Seq<AttrEntryView>, u: ControllerUnitView)
    requires
        parse_attrs_spec(es) is Ok,
    ensures
        layers(emit_spec(plan_spec(parse_attrs_spec(es)->Ok_0, u))) == middleware_values(es),
{
    let p = plan_spec(parse_attrs_spec(es)->Ok_0, u);
    let a = p.route_fns.map_values(|f: Seq<char>| RouterCallView::TypedRoute(f));
    let b = p.middlewares.map_values(|m: Seq<char>| RouterCallView::Layer(m));
    let c = seq![RouterCallView::WithState];
    let d: Seq<RouterCallView> = match p.nest_prefix {
        Some(x) => seq![RouterCallView::Nest(x)],
        None => Seq::empty(),
    };
    lemma_parsed_middlewares(es);
    lemma_layers_of_routes(p.route_fns);
    lemma_layers_of_layers(p.middlewares);
    lemma_layers_append(a, b);
    lemma_layers_append(a + b, c);
    lemma_layers_append(a + b + c, d);
    assert(c.drop_last() =~= Seq::<RouterCallView>::empty());
    assert(d.len() > 0 ==> d.drop_last() =~= Seq::<RouterCallView>::empty());
    assert(layers(d) =~= Seq::<Seq<char>>::empty());
    assert(layers(c) =~= Seq::<Seq<char>>::empty());
    assert(layers(a) + layers(b) + layers(c) + layers(d) =~= middleware_values(es));
}

/// The prefix under which a controller's routes are reachable: empty at the root.
pub open spec fn mount_prefix(path: Option<Seq<char>>) -> Seq<char> {
    match nest_prefix_spec(path) {
        Some(p) => p,
        None => Seq::empty(),
    }
}

proof fn lemma_mounted_routes(fs: Seq<Seq<char>>)
    ensures
        mounted(fs.map_values(|f: Seq<char>| RouterCallView::TypedRoute(f))) == fs.map_values(
            |h: Seq<char>| (Seq::<char>::empty(), h),
        ),
    decreases fs.len(),
{
    if fs.len() > 0 {
        assert(fs.map_values(|f: Seq<char>| RouterCallView::TypedRoute(f)).drop_last() =~= fs.drop_last().map_values(
            |f: Seq<char>| RouterCallView::TypedRoute(f),
        ));
        lemma_mounted_routes(fs.drop_last());
        assert(fs.map_values(|h: Seq<char>| (Seq::<char>::empty(), h)) =~= fs.drop_last().map_values(
            |h: Seq<char>| (Seq::<char>::empty(), h),
        ).push((Seq::<char>::empty(), fs.last())));
    }
}

proof fn lemma_mounted_layers(x: Seq<RouterCallView>, ms: Seq<Seq<char>>)
    ensures
        mounted(x + ms.map_values(|m: Seq<char>| RouterCallView::Layer(m))) == mounted(x),
    decreases ms.len(),
{
    let b = ms.map_values(|m: Seq<char>| RouterCallView::Layer(m));
    if ms.len() == 0 {
        assert(x + b =~= x);
    } else {
        assert((x + b).drop_last() =~= x + ms.drop_last().map_values(|m: Seq<char>| RouterCallView::Layer(m)));
        lemma_mounted_layers(x, ms.drop_last());
    }
}

/// At the root the routes are reachable under their own paths alone; under any
/// other prefix `p`, every route of the controller is reachable under `p`
/// followed by its own path, and nowhere else.
pub proof fn lemma_nesting(c: ControllerSpecView, u: ControllerUnitView)
    ensures
        mounted(emit_spec(plan_spec(c, u))) == route_fns_spec(u.members).map_values(
            |h: Seq<char>| (mount_prefix(c.path), h),
        ),
{
    let p = plan_spec(c, u);
    let fs = p.route_fns;
    let a = fs.map_values(|f: Seq<char>| RouterCallView::TypedRoute(f));
    let b = p.middlewares.map_values(|m: Seq<char>| RouterCallView::Layer(m));
    let base = a + b + seq![RouterCallView::WithState];
    lemma_mounted_routes(fs);
    lemma_mounted_layers(a, p.middlewares);
    assert(base.drop_last() =~= a + b);
    assert(mounted(base) == mounted(a));
    match p.nest_prefix {
        Some(x) => {
            assert(emit_spec(p) =~= base.push(RouterCallView::Nest(x)));
            assert(emit_spec(p).drop_last() =~= base);
            assert(x + Seq::<char>::empty() =~= x);
            assert(mounted(emit_spec(p)) =~= fs.map_values(|h: Seq<char>| (mount_prefix(c.path), h)));
        },
        None => {
            assert(emit_spec(p) =~= base);
            assert(mount_prefix(c.path) == Seq::<char>::empty());
            assert(mounted(emit_spec(p)) =~= fs.map_values(|h: Seq<char>| (mount_prefix(c.path), h)));
        },
    }
}

} // verus!
