use linkmap::model::{Condition, TransformationLogic, TransformationRule, TransformationStep, TransformationType};
use linkmap::transform::{BuiltinFunction, TransformError, TransformationEngine};

fn ctx(pairs: &[(&str, &str)]) -> Vec<(String, String)> {
    pairs.iter().map(|(k, v)| (k.to_string(), v.to_string())).collect()
}

fn rule(logic: TransformationLogic, conditions: Option<Vec<Condition>>) -> TransformationRule {
    TransformationRule {
        name: "r".to_string(),
        description: "rule".to_string(),
        rule_type: TransformationType::Function,
        conditions,
        logic,
        priority: 1,
    }
}

#[test]
fn test_interface_name_generation() {
    let _engine = TransformationEngine::new();
    let mut context = ctx(&[("link_speed", "25G")]);

    let result = TransformationEngine::generate_interface_name("5", &context);
    assert_eq!(result.unwrap(), "et-0/0/5");

    context[0].1 = "1G".to_string();
    let result = TransformationEngine::generate_interface_name("3", &context);
    assert_eq!(result.unwrap(), "ge-0/0/3");

    context[0].1 = "10G".to_string();
    let result = TransformationEngine::generate_interface_name("7", &context);
    assert_eq!(result.unwrap(), "xe-0/0/7");
}

#[test]
fn test_speed_normalization() {
    assert_eq!(TransformationEngine::normalize_speed_value("25GB"), "25G");
    assert_eq!(TransformationEngine::normalize_speed_value("25 Gbps"), "25G");
    assert_eq!(TransformationEngine::normalize_speed_value("1000"), "1000G");
    assert_eq!(TransformationEngine::normalize_speed_value("10G"), "10G");
    assert_eq!(TransformationEngine::normalize_speed_value(""), "");
}

#[test]
fn test_lag_mode_conversion() {
    assert_eq!(TransformationEngine::convert_lag_mode_value("Yes"), "lacp_active");
    assert_eq!(TransformationEngine::convert_lag_mode_value("yes"), "lacp_active");
    assert_eq!(TransformationEngine::convert_lag_mode_value("Y"), "lacp_active");
    assert_eq!(TransformationEngine::convert_lag_mode_value("y"), "lacp_active");
    assert_eq!(TransformationEngine::convert_lag_mode_value("true"), "lacp_active");
    assert_eq!(TransformationEngine::convert_lag_mode_value("1"), "lacp_active");

    assert_eq!(TransformationEngine::convert_lag_mode_value("No"), "none");
    assert_eq!(TransformationEngine::convert_lag_mode_value("no"), "none");
    assert_eq!(TransformationEngine::convert_lag_mode_value("N"), "none");
    assert_eq!(TransformationEngine::convert_lag_mode_value("n"), "none");
    assert_eq!(TransformationEngine::convert_lag_mode_value("false"), "none");
    assert_eq!(TransformationEngine::convert_lag_mode_value("0"), "none");

    assert_eq!(TransformationEngine::convert_lag_mode_value("lacp"), "lacp_active");

    assert_eq!(TransformationEngine::convert_lag_mode_value("lacp_active"), "lacp_active");
    assert_eq!(TransformationEngine::convert_lag_mode_value("static"), "static");
    assert_eq!(TransformationEngine::convert_lag_mode_value("none"), "none");

    assert_eq!(TransformationEngine::convert_lag_mode_value("unknown"), "unknown");
    assert_eq!(TransformationEngine::convert_lag_mode_value(""), "");
}

#[test]
fn test_value_mapping_transformation() {
    let engine = TransformationEngine::new();
    let value_map = ctx(&[("25GB", "25G"), ("10GB", "10G")]);
    let r = TransformationRule {
        name: "test_mapping".to_string(),
        description: "Test mapping".to_string(),
        rule_type: TransformationType::ValueMapping,
        conditions: None,
        logic: TransformationLogic::ValueMap { mappings: value_map },
        priority: 1,
    };

    let result = engine.apply_transformation(&r, "25GB", &Vec::new());
    assert_eq!(result.unwrap(), "25G");

    let result = engine.apply_transformation(&r, "unknown", &Vec::new());
    assert_eq!(result.unwrap(), "unknown");
}

#[test]
fn test_template_transformation() {
    let engine = TransformationEngine::new();
    let context = ctx(&[("port", "5")]);
    let r = TransformationRule {
        name: "test_template".to_string(),
        description: "Test template".to_string(),
        rule_type: TransformationType::Template,
        conditions: None,
        logic: TransformationLogic::Template { template: "et-0/0/{port}".to_string() },
        priority: 1,
    };

    let result = engine.apply_transformation(&r, "input", &context);
    assert_eq!(result.unwrap(), "et-0/0/5");
}

#[test]
fn speed_megabit_and_spelled_forms() {
    assert_eq!(TransformationEngine::normalize_speed_value("100 MB"), "100M");
    assert_eq!(TransformationEngine::normalize_speed_value("100 mbps"), "100M");
    assert_eq!(TransformationEngine::normalize_speed_value("  40gb "), "40G");
    assert_eq!(TransformationEngine::normalize_speed_value("25.5GB"), "25G");
    assert_eq!(TransformationEngine::normalize_speed_value("007GB"), "7G");
    assert_eq!(TransformationEngine::normalize_speed_value("+5"), "5G");
    assert_eq!(TransformationEngine::normalize_speed_value("100m"), "100M");
    assert_eq!(TransformationEngine::normalize_speed_value("fast"), "fast");
    assert_eq!(TransformationEngine::normalize_speed_value("1.2.3GB"), "1.2.3GB");
}

#[test]
fn speed_normalisation_is_idempotent_on_outputs() {
    for s in ["25GB", "25 Gbps", "100 MB", "10G", "", "fast", " 40 g ", "1000"] {
        let once = TransformationEngine::normalize_speed_value(s);
        let twice = TransformationEngine::normalize_speed_value(&once);
        assert_eq!(once, twice);
    }
}

#[test]
fn interface_prefix_by_bandwidth() {
    assert_eq!(TransformationEngine::determine_interface_prefix("1G"), "ge");
    assert_eq!(TransformationEngine::determine_interface_prefix("1000M"), "ge");
    assert_eq!(TransformationEngine::determine_interface_prefix("10 Gbps"), "xe");
    assert_eq!(TransformationEngine::determine_interface_prefix("40GB"), "et");
    assert_eq!(TransformationEngine::determine_interface_prefix("100000M"), "et");
    assert_eq!(TransformationEngine::determine_interface_prefix("400G"), "et");
    assert_eq!(TransformationEngine::determine_interface_prefix("5G"), "ge");
    assert_eq!(TransformationEngine::determine_interface_prefix(""), "ge");
    assert_eq!(TransformationEngine::determine_interface_prefix("fast"), "ge");
}

#[test]
fn interface_name_passes_non_ports_through() {
    let context = ctx(&[("link_speed", "25G")]);
    assert_eq!(TransformationEngine::generate_interface_name("et-0/0/5", &context).unwrap(), "et-0/0/5");
    assert_eq!(TransformationEngine::generate_interface_name(" 12 ", &context).unwrap(), "et-0/0/12");
    assert_eq!(TransformationEngine::generate_interface_name("4", &Vec::new()).unwrap(), "ge-0/0/4");
    assert_eq!(TransformationEngine::generate_interface_name("-1", &context).unwrap(), "-1");
}

#[test]
fn lag_mode_is_idempotent_on_outputs() {
    for s in ["Yes", "N", " STATIC ", "lacp", "other", ""] {
        let once = TransformationEngine::convert_lag_mode_value(s);
        assert_eq!(TransformationEngine::convert_lag_mode_value(&once), once);
    }
    assert_eq!(TransformationEngine::convert_lag_mode_value(" Static "), "static");
}

#[test]
fn numeric_port_detection() {
    assert!(TransformationEngine::is_numeric_port("5"));
    assert!(TransformationEngine::is_numeric_port(" 48 "));
    assert!(TransformationEngine::is_numeric_port("4294967295"));
    assert!(!TransformationEngine::is_numeric_port("4294967296"));
    assert!(!TransformationEngine::is_numeric_port("xe-0/0/1"));
    assert!(!TransformationEngine::is_numeric_port(""));
}

#[test]
fn value_map_falls_back_to_case_insensitive_keys() {
    let engine = TransformationEngine::new();
    let r = rule(TransformationLogic::ValueMap { mappings: ctx(&[("Yes", "true"), ("No", "false")]) }, None);
    assert_eq!(engine.apply_transformation(&r, "YES", &Vec::new()).unwrap(), "true");
    assert_eq!(engine.apply_transformation(&r, "no", &Vec::new()).unwrap(), "false");
    assert_eq!(engine.apply_transformation(&r, "maybe", &Vec::new()).unwrap(), "maybe");
}

#[test]
fn template_substitutes_input_and_context() {
    let engine = TransformationEngine::new();
    let r = rule(TransformationLogic::Template { template: "{input}@{host} {missing}".to_string() }, None);
    let context = ctx(&[("host", "leaf1")]);
    assert_eq!(engine.apply_transformation(&r, "eth0", &context).unwrap(), "eth0@leaf1 {missing}");
}

#[test]
fn function_rule_and_unknown_function() {
    let engine = TransformationEngine::new();
    let r = rule(TransformationLogic::Function { name: "to_uppercase".to_string() }, None);
    assert_eq!(engine.apply_transformation(&r, "leaf-a", &Vec::new()).unwrap(), "LEAF-A");
    let r = rule(TransformationLogic::Function { name: "trim_whitespace".to_string() }, None);
    assert_eq!(engine.apply_transformation(&r, "  x  ", &Vec::new()).unwrap(), "x");
    let r = rule(TransformationLogic::Function { name: "to_lowercase".to_string() }, None);
    assert_eq!(engine.apply_transformation(&r, "AbC", &Vec::new()).unwrap(), "abc");
    let r = rule(TransformationLogic::Function { name: "reverse".to_string() }, None);
    match engine.apply_transformation(&r, "x", &Vec::new()) {
        Err(TransformError::UnknownFunction { name }) => assert_eq!(name, "reverse"),
        other => panic!("unexpected {:?}", other),
    }
}

#[test]
fn conditions_gate_rules() {
    let engine = TransformationEngine::new();
    let logic = TransformationLogic::Function { name: "generate_interface_name".to_string() };
    let gated = rule(
        logic,
        Some(vec![Condition::InputType("numeric_port".to_string()), Condition::HasSpeedData(true)]),
    );
    assert_eq!(engine.apply_transformation(&gated, "3", &Vec::new()).unwrap(), "3");
    let context = ctx(&[("link_speed", "10G")]);
    assert_eq!(engine.apply_transformation(&gated, "3", &context).unwrap(), "xe-0/0/3");
    assert_eq!(engine.apply_transformation(&gated, "abc", &context).unwrap(), "abc");

    let upper = TransformationLogic::Function { name: "to_uppercase".to_string() };
    let short = rule(upper, Some(vec![Condition::MinLength(3), Condition::MaxLength(4)]));
    assert_eq!(engine.apply_transformation(&short, "ab", &Vec::new()).unwrap(), "ab");
    assert_eq!(engine.apply_transformation(&short, "abc", &Vec::new()).unwrap(), "ABC");
    assert_eq!(engine.apply_transformation(&short, "abcde", &Vec::new()).unwrap(), "abcde");
    assert!(engine.evaluate_conditions(&vec![], "", &Vec::new()));
    assert!(!engine.evaluate_conditions(&vec![Condition::InputType("text".to_string())], "5", &Vec::new()));
}

fn step(step_type: &str, name: Option<&str>, template: Option<&str>, mappings: Option<Vec<(String, String)>>) -> TransformationStep {
    TransformationStep {
        step_type: step_type.to_string(),
        name: name.map(|s| s.to_string()),
        template: template.map(|s| s.to_string()),
        mappings,
    }
}

#[test]
fn pipeline_threads_value_and_fails_closed() {
    let engine = TransformationEngine::new();
    let steps = vec![
        step("function", Some("trim_whitespace"), None, None),
        step("value_map", None, None, Some(ctx(&[("a", "b")]))),
        step("template", None, Some("<{input}>"), None),
    ];
    let r = rule(TransformationLogic::Pipeline { steps }, None);
    assert_eq!(engine.apply_transformation(&r, "  a ", &Vec::new()).unwrap(), "<b>");

    let bad = rule(
        TransformationLogic::Pipeline {
            steps: vec![
                step("function", Some("to_uppercase"), None, None),
                step("shuffle", None, None, None),
                step("template", None, None, None),
                step("function", Some("nope"), None, None),
                step("template", None, Some("[{input}]"), None),
            ],
        },
        None,
    );
    let (value, faults) = engine.apply_transformation_reporting(&bad, "x", &Vec::new());
    assert_eq!(value.unwrap(), "[X]");
    assert_eq!(faults.len(), 3);
    match &faults[0] {
        TransformError::UnknownStepType { step_type } => assert_eq!(step_type, "shuffle"),
        other => panic!("unexpected {:?}", other),
    }
    match &faults[1] {
        TransformError::MissingParameter { step_type, parameter } => {
            assert_eq!(step_type, "template");
            assert_eq!(parameter, "template");
        }
        other => panic!("unexpected {:?}", other),
    }
    match &faults[2] {
        TransformError::UnknownFunction { name } => assert_eq!(name, "nope"),
        other => panic!("unexpected {:?}", other),
    }
    assert_eq!(engine.apply_transformation(&bad, "y", &Vec::new()).unwrap(), "[Y]");
}

#[test]
fn pipeline_value_map_step_falls_back_to_case_insensitive_keys() {
    let engine = TransformationEngine::new();
    let steps = vec![step("value_map", None, None, Some(ctx(&[("Yes", "lacp_active")])))];
    let r = rule(TransformationLogic::Pipeline { steps }, None);
    assert_eq!(engine.apply_transformation(&r, "YES", &Vec::new()).unwrap(), "lacp_active");
}

#[test]
fn length_conditions_count_bytes() {
    let engine = TransformationEngine::new();
    let upper = TransformationLogic::Function { name: "to_uppercase".to_string() };
    let r = rule(upper, Some(vec![Condition::MinLength(2)]));
    assert_eq!(engine.apply_transformation(&r, "\u{e9}", &Vec::new()).unwrap(), "\u{c9}");
    let upper = TransformationLogic::Function { name: "to_uppercase".to_string() };
    let r = rule(upper, Some(vec![Condition::MaxLength(1)]));
    assert_eq!(engine.apply_transformation(&r, "\u{e9}", &Vec::new()).unwrap(), "\u{e9}");
}

#[test]
fn speed_uses_full_upper_case() {
    assert_eq!(TransformationEngine::normalize_speed_value("25GBP\u{17f}"), "25G");
    assert_eq!(TransformationEngine::normalize_speed_folded("x", "10G"), "10G");
    assert_eq!(TransformationEngine::normalize_speed_folded("x", "FAST"), "x");
}

#[test]
fn rule_validation() {
    let engine = TransformationEngine::new();
    let ok = rule(TransformationLogic::Function { name: "normalize_speed".to_string() }, None);
    assert!(engine.validate_transformation_rule(&ok).is_ok());
    let empty = rule(TransformationLogic::Template { template: String::new() }, None);
    match engine.validate_transformation_rule(&empty) {
        Err(TransformError::EmptyLogic { kind }) => assert_eq!(kind, "template"),
        other => panic!("unexpected {:?}", other),
    }
    let empty_map = rule(TransformationLogic::ValueMap { mappings: vec![] }, None);
    assert!(engine.validate_transformation_rule(&empty_map).is_err());
    let empty_pipe = rule(TransformationLogic::Pipeline { steps: vec![] }, None);
    assert!(engine.validate_transformation_rule(&empty_pipe).is_err());
    let bad_fn = rule(
        TransformationLogic::Pipeline { steps: vec![step("function", Some("nope"), None, None)] },
        None,
    );
    match engine.validate_transformation_rule(&bad_fn) {
        Err(TransformError::UnknownFunction { name }) => assert_eq!(name, "nope"),
        other => panic!("unexpected {:?}", other),
    }
}

#[test]
fn builtin_registry_names() {
    assert_eq!(BuiltinFunction::from_name("lag_mode_conversion"), Some(BuiltinFunction::LagModeConversion));
    assert_eq!(BuiltinFunction::from_name("normalize_speed"), Some(BuiltinFunction::NormalizeSpeed));
    assert_eq!(BuiltinFunction::from_name("Normalize_Speed"), None);
    assert_eq!(BuiltinFunction::TrimWhitespace.apply(" a\t", &Vec::new()), "a");
}
