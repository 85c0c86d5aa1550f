use axum_controller::render::render_path;
use axum_controller::route::{HandlerParam, Method, QueryParam, RouteError};
use axum_controller::template::{parse_path, parse_template, same_shape, Segment, TemplateError};
use axum_controller::route;

fn param(name: &str, optional: bool) -> HandlerParam {
    HandlerParam { name: name.to_string(), optional, extractor: false }
}

fn extractor(name: &str) -> HandlerParam {
    HandlerParam { name: name.to_string(), optional: false, extractor: true }
}

#[test]
fn classifies_each_kind_of_segment() {
    let segs = parse_path("/item/:id/files/*rest").unwrap();
    assert_eq!(
        segs,
        vec![
            Segment::Literal("item".to_string()),
            Segment::PathParam("id".to_string()),
            Segment::Literal("files".to_string()),
            Segment::NamedWildcard("rest".to_string()),
        ]
    );
    assert_eq!(parse_path("/static/*").unwrap().last(), Some(&Segment::Wildcard));
}

#[test]
fn root_path_has_no_segments() {
    assert_eq!(parse_path("/").unwrap(), Vec::<Segment>::new());
    assert_eq!(parse_path("").unwrap(), Vec::<Segment>::new());
}

#[test]
fn empty_components_are_skipped() {
    assert_eq!(parse_path("//a///b/").unwrap(), vec![
        Segment::Literal("a".to_string()),
        Segment::Literal("b".to_string()),
    ]);
}

#[test]
fn hyphens_stay_inside_names() {
    assert_eq!(parse_path("/user-list/:user-id").unwrap(), vec![
        Segment::Literal("user-list".to_string()),
        Segment::PathParam("user-id".to_string()),
    ]);
}

#[test]
fn query_names_follow_the_first_question_mark() {
    let t = parse_template("/item/:id?amount&offset").unwrap();
    assert_eq!(t.segments, vec![
        Segment::Literal("item".to_string()),
        Segment::PathParam("id".to_string()),
    ]);
    assert_eq!(t.query, vec!["amount".to_string(), "offset".to_string()]);
    assert!(parse_template("/item").unwrap().query.is_empty());
}

#[test]
fn malformed_templates_are_refused() {
    assert_eq!(parse_path("/a/:/b"), Err(TemplateError::EmptyParamName));
    assert_eq!(parse_template("/a?x&&y").map(|_| ()), Err(TemplateError::EmptyQueryName));
    assert_eq!(parse_template("/a?").map(|_| ()), Err(TemplateError::EmptyQueryName));
}

#[test]
fn wildcard_must_be_final() {
    assert_eq!(parse_path("/*capture/extra"), Err(TemplateError::MisplacedWildcard));
    assert_eq!(parse_path("/*/*"), Err(TemplateError::MisplacedWildcard));
    let r = route(Method::Get, "/*capture/extra", &vec![param("capture", false)]);
    assert_eq!(r.map(|_| ()), Err(RouteError::Template(TemplateError::MisplacedWildcard)));
}

#[test]
fn final_named_wildcard_binds_the_tail() {
    let r = route(Method::Get, "/*capture", &vec![param("capture", false)]).unwrap();
    assert_eq!(r.segments, vec![Segment::NamedWildcard("capture".to_string())]);
    assert!(r.query_params.is_empty());
}

#[test]
fn optional_query_params_are_not_required() {
    let ps = vec![param("id", false), param("amount", true), param("offset", false)];
    let r = route(Method::Get, "/item/:id?amount&offset", &ps).unwrap();
    assert_eq!(r.method, Method::Get);
    assert_eq!(r.query_params, vec![
        QueryParam { name: "amount".to_string(), required: false },
        QueryParam { name: "offset".to_string(), required: true },
    ]);
}

#[test]
fn unmatched_template_name_is_refused() {
    let r = route(Method::Post, "/item/:id", &vec![param("key", false)]);
    assert_eq!(r.map(|_| ()), Err(RouteError::UnmatchedName));
}

#[test]
fn unbound_handler_param_is_refused() {
    let r = route(Method::Post, "/item/:id", &vec![param("id", false), param("extra", false)]);
    assert_eq!(r.map(|_| ()), Err(RouteError::UnboundParam));
}

#[test]
fn extractors_need_no_template_name() {
    let r = route(Method::Put, "/item/:id", &vec![extractor("state"), param("id", false)]);
    assert!(r.is_ok());
}

#[test]
fn rendering_then_parsing_gives_the_same_segments() {
    for path in ["/", "/item/:id/*", "/a/b-c/:d/*rest", "item//x"] {
        let segs = parse_path(path).unwrap();
        let text = render_path(&segs);
        assert_eq!(parse_path(&text).unwrap(), segs);
    }
    let segs = parse_path("/item/:id/*rest").unwrap();
    assert_eq!(render_path(&segs), "/item/:id/*rest");
    assert_eq!(render_path(&Vec::new()), "/");
}

#[test]
fn shape_ignores_parameter_names() {
    let a = parse_path("/item/:id/*rest").unwrap();
    let b = parse_path("/item/:key/*tail").unwrap();
    let c = parse_path("/items/:id/*rest").unwrap();
    let d = parse_path("/item/:id/*").unwrap();
    assert!(same_shape(&a, &b));
    assert!(!same_shape(&a, &c));
    assert!(!same_shape(&a, &d));
    assert!(!same_shape(&a, &parse_path("/item/:id").unwrap()));
}
