use pfp::params::{auto_type, build_params, compose, merge_params, ParamValue};

fn text(s: &str) -> ParamValue {
    ParamValue::Text(s.to_string())
}

fn obj(pairs: Vec<(&str, ParamValue)>) -> ParamValue {
    ParamValue::Obj(pairs.into_iter().map(|(k, v)| (k.to_string(), v)).collect())
}

#[test]
fn simple_key_value() {
    let result = build_params(&vec!["name=hello".to_string()]).unwrap();
    assert!(result.equals(&obj(vec![("name", text("hello"))])));
}

#[test]
fn dotted_path() {
    let result = build_params(&vec!["config.action=destroy".to_string()]).unwrap();
    assert!(result.equals(&obj(vec![("config", obj(vec![("action", text("destroy"))]))])));
}

#[test]
fn multiple_dotted_paths() {
    let result = build_params(&vec![
        "config.action=destroy".to_string(),
        "config.auto_approve=true".to_string(),
    ])
    .unwrap();
    let expected = obj(vec![(
        "config",
        obj(vec![
            ("action", text("destroy")),
            ("auto_approve", ParamValue::Bool(true)),
        ]),
    )]);
    assert!(result.equals(&expected));
}

#[test]
fn deep_dotted_path() {
    let result = build_params(&vec!["a.b.c=deep".to_string()]).unwrap();
    let expected = obj(vec![("a", obj(vec![("b", obj(vec![("c", text("deep"))]))]))]);
    assert!(result.equals(&expected));
}

#[test]
fn auto_type_bool_true() {
    assert!(auto_type("true").equals(&ParamValue::Bool(true)));
}

#[test]
fn auto_type_bool_false() {
    assert!(auto_type("false").equals(&ParamValue::Bool(false)));
}

#[test]
fn auto_type_integer() {
    assert!(auto_type("42").equals(&ParamValue::Int(42)));
}

#[test]
fn auto_type_float() {
    assert!(auto_type("3.14").equals(&ParamValue::Float("3.14".to_string())));
}

#[test]
fn auto_type_string() {
    assert!(auto_type("hello").equals(&text("hello")));
}

#[test]
fn auto_type_negative_integer() {
    assert!(auto_type("-7").equals(&ParamValue::Int(-7)));
}

#[test]
fn auto_type_extreme_integers() {
    assert!(auto_type("9223372036854775807").equals(&ParamValue::Int(i64::MAX)));
    assert!(auto_type("-9223372036854775808").equals(&ParamValue::Int(i64::MIN)));
}

#[test]
fn auto_type_integer_overflow_is_number_text() {
    assert!(
        auto_type("9223372036854775808").equals(&ParamValue::Float(
            "9223372036854775808".to_string()
        ))
    );
}

#[test]
fn auto_type_huge_exponent_stays_text() {
    assert!(auto_type("1e999").equals(&text("1e999")));
}

#[test]
fn missing_equals_returns_error() {
    let result = build_params(&vec!["no-equals".to_string()]);
    assert!(result.is_err());
    assert_eq!(
        result.unwrap_err(),
        "Invalid --set format 'no-equals', expected key=value"
    );
}

#[test]
fn empty_segment_returns_error() {
    let result = build_params(&vec!["a..b=1".to_string()]);
    assert!(result.is_err());
    assert_eq!(result.unwrap_err(), "Empty segment in key path 'a..b'");
}

#[test]
fn path_conflict_names_segment_and_rest() {
    let result = build_params(&vec!["a=1".to_string(), "a.b.c=2".to_string()]);
    assert!(result.is_err());
    assert_eq!(
        result.unwrap_err(),
        "Conflict: 'a' is not an object, cannot set 'b.c'"
    );
}

#[test]
fn later_assignment_to_same_path_wins() {
    let result = build_params(&vec!["k=1".to_string(), "k=2".to_string()]).unwrap();
    assert!(result.equals(&obj(vec![("k", ParamValue::Int(2))])));
}

#[test]
fn merge_override_wins() {
    let base = obj(vec![(
        "config",
        obj(vec![("action", text("plan")), ("dry_run", ParamValue::Bool(false))]),
    )]);
    let overrides = obj(vec![("config", obj(vec![("action", text("destroy"))]))]);
    let merged = merge_params(&base, &overrides);
    let expected = obj(vec![(
        "config",
        obj(vec![("action", text("destroy")), ("dry_run", ParamValue::Bool(false))]),
    )]);
    assert!(merged.equals(&expected));
}

#[test]
fn merge_adds_new_keys() {
    let base = obj(vec![("environment", text("prod"))]);
    let overrides = obj(vec![("config", obj(vec![("action", text("plan"))]))]);
    let merged = merge_params(&base, &overrides);
    let expected = obj(vec![
        ("environment", text("prod")),
        ("config", obj(vec![("action", text("plan"))])),
    ]);
    assert!(merged.equals(&expected));
}

#[test]
fn merge_overwrite_policy() {
    let base = obj(vec![(
        "a",
        obj(vec![("x", ParamValue::Int(1)), ("y", ParamValue::Int(2))]),
    )]);
    let overrides = obj(vec![("a", obj(vec![("x", ParamValue::Int(9))]))]);
    let merged = merge_params(&base, &overrides);
    let expected = obj(vec![(
        "a",
        obj(vec![("x", ParamValue::Int(9)), ("y", ParamValue::Int(2))]),
    )]);
    assert!(merged.equals(&expected));
}

#[test]
fn merge_empty_overrides_keeps_base() {
    let base = obj(vec![("a", ParamValue::Int(1)), ("b", text("two"))]);
    let merged = merge_params(&base, &obj(vec![]));
    assert!(merged.equals(&base));
}

#[test]
fn merge_scalar_override_replaces_object() {
    let base = obj(vec![("a", obj(vec![("x", ParamValue::Int(1))]))]);
    let overrides = obj(vec![("a", ParamValue::Int(5))]);
    let merged = merge_params(&base, &overrides);
    assert!(merged.equals(&obj(vec![("a", ParamValue::Int(5))])));
}

#[test]
fn compose_round_trip_single_assignment() {
    let defaults = obj(vec![(
        "config",
        obj(vec![("action", text("plan")), ("dry_run", ParamValue::Bool(false))]),
    )]);
    let composed = compose(&defaults, &vec!["config.action=destroy".to_string()]).unwrap();
    let expected = obj(vec![(
        "config",
        obj(vec![("action", text("destroy")), ("dry_run", ParamValue::Bool(false))]),
    )]);
    assert!(composed.equals(&expected));
}

#[test]
fn compose_empty_overrides_keeps_defaults() {
    let defaults = obj(vec![("environment", text("prod"))]);
    let composed = compose(&defaults, &vec![]).unwrap();
    assert!(composed.equals(&defaults));
}

#[test]
fn deep_copy_preserves_structure() {
    let v = obj(vec![
        ("a", ParamValue::Arr(vec![ParamValue::Int(1), ParamValue::Null])),
        ("b", obj(vec![("c", ParamValue::Float("2.5".to_string()))])),
    ]);
    assert!(v.deep_copy().equals(&v));
}
