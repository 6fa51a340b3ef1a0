use rustible::inventory::data::Data;
use rustible::modules::params::{ModuleParams, ParamExt};
use rustible::modules::ModuleError;
use rustible::task_files::extract_include_vars;

fn s(x: &str) -> Data {
    Data::Str(x.to_string())
}

fn params(pairs: Vec<(&str, Data)>) -> ModuleParams {
    pairs.into_iter().map(|(k, v)| (k.to_string(), v)).collect()
}

#[test]
fn test_param_ext() {
    let params = params(vec![
        ("string", s("hello")),
        ("bool_true", Data::Bool(true)),
        ("bool_str", s("yes")),
        ("number", Data::Int(42)),
        ("array", Data::List(vec![s("one"), s("two"), s("three")], "[\"one\",\"two\",\"three\"]".to_string())),
    ]);
    assert_eq!(params.get_string("string").unwrap(), Some("hello".to_string()));
    assert_eq!(params.get_bool("bool_true").unwrap(), Some(true));
    assert_eq!(params.get_bool("bool_str").unwrap(), Some(true));
    assert_eq!(params.get_i64("number").unwrap(), Some(42));
    assert_eq!(
        params.get_vec_string("array").unwrap(),
        Some(vec!["one".to_string(), "two".to_string(), "three".to_string()])
    );
}

#[test]
fn other_values_read_as_their_text() {
    let p = params(vec![
        ("n", Data::Int(-7)),
        ("b", Data::Bool(false)),
        ("z", Data::Null),
        ("f", Data::Float("1.5".to_string())),
        ("big", Data::UInt(18446744073709551615)),
    ]);
    assert_eq!(p.get_string("n").unwrap(), Some("-7".to_string()));
    assert_eq!(p.get_string("b").unwrap(), Some("false".to_string()));
    assert_eq!(p.get_string("z").unwrap(), Some("null".to_string()));
    assert_eq!(p.get_string("f").unwrap(), Some("1.5".to_string()));
    assert_eq!(p.get_string("big").unwrap(), Some("18446744073709551615".to_string()));
    assert_eq!(p.get_string("missing").unwrap(), None);
    assert_eq!(p.get_string_required("missing"), Err(ModuleError::MissingParameter("missing".to_string())));
}

#[test]
fn booleans_are_read_in_several_ways() {
    let p = params(vec![("a", s("ON")), ("b", s("0")), ("c", s("maybe")), ("d", Data::Int(1))]);
    assert_eq!(p.get_bool("a").unwrap(), Some(true));
    assert_eq!(p.get_bool("b").unwrap(), Some(false));
    assert_eq!(p.get_bool("c"), Err(ModuleError::InvalidParameter("c must be a boolean".to_string())));
    assert_eq!(p.get_bool("d"), Err(ModuleError::InvalidParameter("d must be a boolean".to_string())));
    assert!(p.get_bool_or("c", true));
    assert!(!p.get_bool_or("b", true));
    assert!(p.get_bool_or("missing", true));
}

#[test]
fn integers_are_read_from_numbers_and_text() {
    let p = params(vec![("a", s("-12")), ("b", s("x")), ("c", Data::Float("1.5".to_string())), ("d", s("+4"))]);
    assert_eq!(p.get_i64("a").unwrap(), Some(-12));
    assert_eq!(p.get_i64("b"), Err(ModuleError::InvalidParameter("b must be an integer".to_string())));
    assert_eq!(p.get_i64("c"), Err(ModuleError::InvalidParameter("c must be an integer".to_string())));
    assert_eq!(p.get_u32("d").unwrap(), Some(4));
    assert_eq!(p.get_u32("a"), Err(ModuleError::InvalidParameter("a must be a positive integer".to_string())));
    let q = params(vec![("m", Data::Int(420)), ("big", Data::Int(5_000_000_000))]);
    assert_eq!(q.get_u32("m").unwrap(), Some(420));
    assert!(q.get_u32("big").is_err());
}

#[test]
fn lists_are_read_from_arrays_and_text() {
    let p = params(vec![
        ("a", s("x, y ,z")),
        ("b", Data::List(vec![Data::Int(1), s("two")], "[1,\"two\"]".to_string())),
        ("c", Data::Bool(true)),
    ]);
    assert_eq!(p.get_vec_string("a").unwrap(), Some(vec!["x".to_string(), "y".to_string(), "z".to_string()]));
    assert_eq!(p.get_vec_string("b").unwrap(), Some(vec!["1".to_string(), "two".to_string()]));
    assert_eq!(p.get_vec_string("c"), Err(ModuleError::InvalidParameter("c must be an array".to_string())));
}

#[test]
fn include_vars_names_its_file() {
    let args = Data::Mapping(vec![(s("file"), s("vars/main.yml"))], String::new());
    assert_eq!(extract_include_vars("include_vars", &args), Some("vars/main.yml".to_string()));
    assert_eq!(extract_include_vars("debug", &args), None);
    assert_eq!(extract_include_vars("include_vars", &s("vars/main.yml")), None);
}
