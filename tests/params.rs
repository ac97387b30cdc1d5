use lightgbm::params::{int_to_text, num_iterations, render_value};
use lightgbm::{parse_params, ErrorKind, ParamValue, Params};

fn text(s: &str) -> ParamValue {
    ParamValue::Str(s.to_string())
}

fn list(items: &[&str]) -> ParamValue {
    ParamValue::List(items.iter().map(|s| s.to_string()).collect())
}

#[test]
fn params_test_valid() {
    let mut params = Params::new();
    params.insert("num_iterations".to_string(), ParamValue::Int(30));
    params.insert("objective".to_string(), text("binary"));
    params.insert("metrics".to_string(), list(&["binary_logloss", "auc"]));
    params.insert("is_enable_sparse".to_string(), ParamValue::Bool(true));
    let supposed_to_be =
        "is_enable_sparse=true metrics=\"binary_logloss,auc\" num_iterations=30 objective=\"binary\"";
    let parsed = parse_params(&params).unwrap();

    assert_eq!(&parsed, supposed_to_be);
}

#[test]
fn params_num_it_missing() {
    let mut params = Params::new();
    params.insert("objective".to_string(), text("binary"));
    params.insert("metrics".to_string(), list(&["binary_logloss", "auc"]));
    params.insert("is_enable_sparse".to_string(), ParamValue::Bool(true));
    assert!(parse_params(&params).is_err());
}

#[test]
fn missing_budget_is_configuration_error() {
    let mut params = Params::new();
    params.insert("objective".to_string(), text("binary"));
    let e = parse_params(&params).unwrap_err();
    assert_eq!(e.kind, ErrorKind::Configuration);
    let e = num_iterations(&params).unwrap_err();
    assert_eq!(e.kind, ErrorKind::Configuration);
}

#[test]
fn non_integer_budget_is_configuration_error() {
    let mut params = Params::new();
    params.insert("num_iterations".to_string(), ParamValue::Raw("5.5".to_string()));
    assert_eq!(num_iterations(&params).unwrap_err().kind, ErrorKind::Configuration);
    // the map still serialises: only the budget's presence is required there
    assert_eq!(parse_params(&params).unwrap(), "num_iterations=5.5");
}

#[test]
fn budget_is_extracted() {
    let mut params = Params::new();
    params.insert("num_iterations".to_string(), ParamValue::Int(5));
    assert_eq!(num_iterations(&params).unwrap(), 5);
}

#[test]
fn budget_wraps_to_engine_width() {
    let mut params = Params::new();
    params.insert("num_iterations".to_string(), ParamValue::Int((1i64 << 32) + 7));
    assert_eq!(num_iterations(&params).unwrap(), 7);
}

#[test]
fn keys_are_kept_in_order_and_replaced() {
    let mut params = Params::new();
    params.insert("b".to_string(), ParamValue::Int(1));
    params.insert("a".to_string(), ParamValue::Int(2));
    params.insert("num_iterations".to_string(), ParamValue::Int(3));
    params.insert("b".to_string(), ParamValue::Int(4));
    assert_eq!(params.len(), 3);
    assert_eq!(parse_params(&params).unwrap(), "a=2 b=4 num_iterations=3");
}

#[test]
fn prefix_key_sorts_first() {
    let mut params = Params::new();
    params.insert("metric_freq".to_string(), ParamValue::Int(1));
    params.insert("metric".to_string(), text("auc"));
    params.insert("num_iterations".to_string(), ParamValue::Int(3));
    assert_eq!(
        parse_params(&params).unwrap(),
        "metric=\"auc\" metric_freq=1 num_iterations=3"
    );
}

#[test]
fn get_finds_values() {
    let mut params = Params::new();
    params.insert("max_bin".to_string(), ParamValue::Int(255));
    assert!(matches!(params.get("max_bin"), Some(ParamValue::Int(255))));
    assert!(params.get("min_data").is_none());
}

#[test]
fn integers_in_decimal() {
    assert_eq!(int_to_text(0), "0");
    assert_eq!(int_to_text(255), "255");
    assert_eq!(int_to_text(-42), "-42");
    assert_eq!(int_to_text(i64::MAX), "9223372036854775807");
    assert_eq!(int_to_text(i64::MIN), "-9223372036854775808");
}

#[test]
fn values_rendered() {
    assert_eq!(render_value(&ParamValue::Bool(false)), "false");
    assert_eq!(render_value(&text("gbdt")), "\"gbdt\"");
    assert_eq!(render_value(&text("a\"b")), "\"a\\\"b\"");
    assert_eq!(render_value(&ParamValue::Raw("0.8".to_string())), "0.8");
    assert_eq!(render_value(&list(&["a"])), "\"a\"");
    assert_eq!(render_value(&list(&[])), "\"\"");
}

#[test]
fn every_key_appears_as_key_value() {
    let mut params = Params::new();
    params.insert("num_iterations".to_string(), ParamValue::Int(30));
    params.insert("objective".to_string(), text("binary"));
    params.insert("boosting_type".to_string(), text("gbdt"));
    params.insert("metrics".to_string(), list(&["binary_logloss", "auc"]));
    params.insert("label_column".to_string(), ParamValue::Int(0));
    params.insert("max_bin".to_string(), ParamValue::Int(255));
    params.insert("tree_learner".to_string(), text("serial"));
    params.insert("feature_fraction".to_string(), ParamValue::Raw("0.8".to_string()));
    params.insert("is_enable_sparse".to_string(), ParamValue::Bool(true));
    params.insert("data_random_seed".to_string(), ParamValue::Int(0));
    let s = parse_params(&params).unwrap();
    for token in [
        "num_iterations=30",
        "objective=\"binary\"",
        "boosting_type=\"gbdt\"",
        "metrics=\"binary_logloss,auc\"",
        "label_column=0",
        "max_bin=255",
        "tree_learner=\"serial\"",
        "feature_fraction=0.8",
        "is_enable_sparse=true",
        "data_random_seed=0",
    ] {
        assert!(s.split(' ').any(|t| t == token), "{} missing from {}", token, s);
    }
    assert_eq!(s.split(' ').count(), 10);
}
