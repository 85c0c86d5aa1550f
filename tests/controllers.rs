use axum_controller::config::{parse_attrs, AttrEntry, ConfigError, ControllerSpec};
use axum_controller::controller::{route_fns, ControllerUnit, Member, RouterCall};
use axum_controller::{controller, emit};

fn entry(key: &str, value: &str) -> AttrEntry {
    AttrEntry { key: key.to_string(), value: value.to_string() }
}

fn member(name: &str, is_fn: bool, attrs: &[&str]) -> Member {
    Member { name: name.to_string(), is_fn, attrs: attrs.iter().map(|a| a.to_string()).collect() }
}

fn unit() -> ControllerUnit {
    ControllerUnit {
        self_type: "ExampleController".to_string(),
        members: vec![
            member("test_handler_fn", true, &["route"]),
            member("helper", true, &["doc"]),
            member("LIMIT", false, &["doc"]),
            member("test_handler_fn2", true, &["doc", "route"]),
        ],
    }
}

#[test]
fn defaults_when_nothing_is_configured() {
    let plan = controller(&vec![], &unit()).unwrap();
    assert_eq!(plan.state_type, "()");
    assert_eq!(plan.nest_prefix, None);
    assert!(plan.middlewares.is_empty());
    assert_eq!(plan.self_type, "ExampleController");
}

#[test]
fn only_annotated_functions_are_routes() {
    assert_eq!(route_fns(&unit()), vec!["test_handler_fn".to_string(), "test_handler_fn2".to_string()]);
}

#[test]
fn duplicate_path_is_refused() {
    let es = vec![entry("path", "\"/a\""), entry("middleware", "m"), entry("path", "\"/b\"")];
    assert_eq!(parse_attrs(&es), Err(ConfigError::DuplicatePath));
}

#[test]
fn duplicate_state_is_refused() {
    let es = vec![entry("state", "AppState"), entry("state", "Other")];
    assert_eq!(parse_attrs(&es), Err(ConfigError::DuplicateState));
}

#[test]
fn unknown_key_is_refused() {
    let es = vec![entry("path", "\"/a\""), entry("prefix", "\"/b\"")];
    assert_eq!(parse_attrs(&es), Err(ConfigError::UnknownKey));
    assert_eq!(controller(&es, &unit()).map(|_| ()), Err(ConfigError::UnknownKey));
}

#[test]
fn repeated_middleware_is_kept_in_order() {
    let es = vec![entry("middleware", "a"), entry("middleware", "b"), entry("middleware", "c")];
    assert_eq!(
        parse_attrs(&es),
        Ok(ControllerSpec {
            path: None,
            state: None,
            middlewares: vec!["a".to_string(), "b".to_string(), "c".to_string()],
        })
    );
}

#[test]
fn emitted_layers_follow_the_declaration() {
    let es = vec![
        entry("path", "\"/asd\""),
        entry("state", "AppState"),
        entry("middleware", "b"),
        entry("middleware", "a"),
        entry("middleware", "c"),
    ];
    let plan = controller(&es, &unit()).unwrap();
    assert_eq!(
        emit(&plan),
        vec![
            RouterCall::TypedRoute("test_handler_fn".to_string()),
            RouterCall::TypedRoute("test_handler_fn2".to_string()),
            RouterCall::Layer("b".to_string()),
            RouterCall::Layer("a".to_string()),
            RouterCall::Layer("c".to_string()),
            RouterCall::WithState,
            RouterCall::Nest("\"/asd\"".to_string()),
        ]
    );
    assert_eq!(plan.state_type, "AppState");
}

#[test]
fn root_prefix_is_not_nested() {
    let plan = controller(&vec![entry("path", "\"/\"")], &unit()).unwrap();
    assert_eq!(plan.nest_prefix, None);
    assert_eq!(emit(&plan).last(), Some(&RouterCall::WithState));
}

#[test]
fn other_prefixes_are_nested() {
    let plan = controller(&vec![entry("path", "PREFIX")], &unit()).unwrap();
    assert_eq!(plan.nest_prefix, Some("PREFIX".to_string()));
    let plan = controller(&vec![entry("path", "\"/api\"")], &unit()).unwrap();
    assert_eq!(emit(&plan).last(), Some(&RouterCall::Nest("\"/api\"".to_string())));
}

#[test]
fn route_on_a_non_function_is_refused() {
    let mut u = unit();
    u.members.push(member("LIMIT2", false, &["route"]));
    assert_eq!(controller(&vec![], &u).map(|_| ()), Err(ConfigError::RouteOnNonFunction));
    let es = vec![entry("state", "A"), entry("state", "B")];
    assert_eq!(controller(&es, &u).map(|_| ()), Err(ConfigError::DuplicateState));
}
