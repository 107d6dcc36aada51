use linkmap::model::{
    DataType, EnhancedConversionMap, ErrorSeverity, FieldDefinition, MappingType, TransformationLogic,
    TransformationRule, TransformationType, ValidationRules, XlsxMapping,
};
use linkmap::rows::{convert_enhanced_to_network_config_row, parse_worksheet_data};
use linkmap::service::EnhancedConversionService;

fn mapping(pattern: &str, mapping_type: MappingType, priority: u32) -> XlsxMapping {
    XlsxMapping { pattern: pattern.to_string(), mapping_type, priority, case_sensitive: false, transform: None }
}

fn no_rules() -> ValidationRules {
    ValidationRules { min_length: None, max_length: None, pattern: None, allowed_values: None, custom_validators: None }
}

fn field(mappings: Vec<XlsxMapping>, transformations: Option<Vec<&str>>) -> FieldDefinition {
    FieldDefinition {
        display_name: "Field".to_string(),
        description: String::new(),
        data_type: DataType::Text,
        is_required: false,
        is_key_field: false,
        xlsx_mappings: mappings,
        api_mappings: vec![],
        validation_rules: no_rules(),
        ui_config: None,
        transformations: transformations.map(|v| v.iter().map(|s| s.to_string()).collect()),
    }
}

fn function_rule(name: &str) -> TransformationRule {
    TransformationRule {
        name: name.to_string(),
        description: String::new(),
        rule_type: TransformationType::Function,
        conditions: None,
        logic: TransformationLogic::Function { name: name.to_string() },
        priority: 1,
    }
}

fn map_with(fields: Vec<(&str, FieldDefinition)>, rules: Vec<(&str, TransformationRule)>) -> EnhancedConversionMap {
    EnhancedConversionMap {
        version: "1.0.0".to_string(),
        header_row: Some(1),
        field_definitions: fields.into_iter().map(|(n, f)| (n.to_string(), f)).collect(),
        transformation_rules: rules.into_iter().map(|(n, r)| (n.to_string(), r)).collect(),
        created_at: None,
        updated_at: None,
    }
}

fn strings(v: &[&str]) -> Vec<String> {
    v.iter().map(|s| s.to_string()).collect()
}

fn pairs(v: &[(&str, &str)]) -> Vec<(String, String)> {
    v.iter().map(|(a, b)| (a.to_string(), b.to_string())).collect()
}

fn link_map() -> EnhancedConversionMap {
    map_with(
        vec![
            ("switch_label", field(vec![mapping("Switch Name", MappingType::Exact, 10)], None)),
            ("switch_ifname", field(vec![mapping("Switch Port", MappingType::Exact, 10)], Some(vec!["generate_interface_name"]))),
            ("server_label", field(vec![mapping("Host Name", MappingType::Exact, 10)], None)),
            ("link_speed", field(vec![mapping("Speed", MappingType::Partial, 5)], Some(vec!["normalize_speed"]))),
            ("link_group_lag_mode", field(vec![mapping("LACP", MappingType::Partial, 5)], Some(vec!["lag_mode_conversion"]))),
        ],
        vec![
            ("generate_interface_name", function_rule("generate_interface_name")),
            ("normalize_speed", function_rule("normalize_speed")),
            ("lag_mode_conversion", function_rule("lag_mode_conversion")),
        ],
    )
}

#[test]
fn exact_match_is_normalised_and_full_confidence() {
    let service = EnhancedConversionService::new();
    let map = link_map();
    let r = service.convert_headers_with_enhanced_map(&strings(&["  SWITCH\nname ", "Speed (Gb)"]), &map);
    let m0 = r.matches[0].as_ref().unwrap();
    assert_eq!(m0.field, "switch_label");
    assert_eq!((m0.confidence.num, m0.confidence.den), (1, 1));
    let m1 = r.matches[1].as_ref().unwrap();
    assert_eq!(m1.field, "link_speed");
    assert_eq!((m1.confidence.num, m1.confidence.den), (8, 10));
    assert!(r.validation_errors.is_empty());
    assert!(!r.used_fallback);
}

#[test]
fn headers_with_equal_normal_forms_resolve_alike() {
    let service = EnhancedConversionService::new();
    let map = link_map();
    let a = service.convert_headers_with_enhanced_map(&strings(&["Host   Name"]), &map);
    let b = service.convert_headers_with_enhanced_map(&strings(&["host name\r"]), &map);
    let (ma, mb) = (a.matches[0].as_ref().unwrap(), b.matches[0].as_ref().unwrap());
    assert_eq!(ma.field, mb.field);
    assert_eq!((ma.confidence.num, ma.confidence.den), (mb.confidence.num, mb.confidence.den));
}

#[test]
fn exact_match_locks_field_against_weaker_matches() {
    let service = EnhancedConversionService::new();
    let map = map_with(
        vec![("switch_label", field(vec![mapping("switch", MappingType::Exact, 1), mapping("sw", MappingType::Partial, 9)], None))],
        vec![],
    );
    let r = service.convert_headers_with_enhanced_map(&strings(&["sw name", "Switch"]), &map);
    assert!(r.matches[0].is_none());
    assert_eq!(r.matches[1].as_ref().unwrap().field, "switch_label");
    assert_eq!(r.validation_errors.len(), 1);
    assert_eq!(r.validation_errors[0].field, "sw name");
    assert_eq!(r.validation_errors[0].severity, ErrorSeverity::Warning);
}

#[test]
fn regex_and_fuzzy_tiers() {
    let service = EnhancedConversionService::new();
    let map = map_with(
        vec![
            ("server_ifname", field(vec![mapping(r"^(NIC|Slot)\s*\d*$", MappingType::Regex, 1)], None)),
            ("comment", field(vec![mapping("comments", MappingType::Fuzzy, 1)], None)),
            ("broken", field(vec![mapping("(", MappingType::Regex, 1)], None)),
        ],
        vec![],
    );
    let r = service.convert_headers_with_enhanced_map(&strings(&["NIC 1", "coments", "zzzz"]), &map);
    let m0 = r.matches[0].as_ref().unwrap();
    assert_eq!(m0.field, "server_ifname");
    assert_eq!((m0.confidence.num, m0.confidence.den), (9, 10));
    let m1 = r.matches[1].as_ref().unwrap();
    assert_eq!(m1.field, "comment");
    assert_eq!((m1.confidence.num, m1.confidence.den), (7, 8));
    assert!(r.matches[2].is_none());
}

#[test]
fn priority_breaks_ties() {
    let service = EnhancedConversionService::new();
    let map = map_with(
        vec![
            ("a", field(vec![mapping("port", MappingType::Partial, 1)], None)),
            ("b", field(vec![mapping("switch", MappingType::Partial, 7)], None)),
        ],
        vec![],
    );
    let r = service.convert_headers_with_enhanced_map(&strings(&["switch port"]), &map);
    assert_eq!(r.matches[0].as_ref().unwrap().field, "b");
}

#[test]
fn synonym_table_used_when_nothing_matches() {
    let service = EnhancedConversionService::new();
    let map = map_with(vec![("x", field(vec![mapping("nothing here", MappingType::Exact, 1)], None))], vec![]);
    let r = service.convert_headers_with_enhanced_map(&strings(&["Hostname", "Switch Port", "Mystery"]), &map);
    assert!(r.used_fallback);
    assert_eq!(r.matches[0].as_ref().unwrap().field, "server_label");
    assert_eq!(r.matches[1].as_ref().unwrap().field, "switch_ifname");
    assert!(r.matches[2].is_none());
    assert_eq!(r.validation_errors.len(), 1);
}

#[test]
fn levenshtein_values() {
    let service = EnhancedConversionService::new();
    assert_eq!(service.levenshtein_distance("kitten", "sitting"), 3);
    assert_eq!(service.levenshtein_distance("", "abc"), 3);
    assert_eq!(service.levenshtein_distance("same", "same"), 0);
    assert_eq!(service.levenshtein_distance("flaw", "lawn"), 2);
}

#[test]
fn transformations_use_row_context() {
    let service = EnhancedConversionService::new();
    let map = link_map();
    let data = pairs(&[("switch_ifname", "5"), ("link_speed", "25 Gbps"), ("link_group_lag_mode", "Yes"), ("comment", "x")]);
    let out = service.apply_field_transformations(&data, &map);
    assert_eq!(out, pairs(&[("switch_ifname", "et-0/0/5"), ("link_speed", "25G"), ("link_group_lag_mode", "lacp_active"), ("comment", "x")]));
}

#[test]
fn transformations_are_idempotent_on_canonical_values() {
    let service = EnhancedConversionService::new();
    let map = link_map();
    let data = pairs(&[("switch_ifname", "et-0/0/5"), ("link_speed", "25G"), ("link_group_lag_mode", "lacp_active")]);
    let out = service.apply_field_transformations(&data, &map);
    assert_eq!(out, data);
    let again = service.apply_field_transformations(&out, &map);
    assert_eq!(again, out);
}

#[test]
fn missing_and_failing_rules_leave_value() {
    let service = EnhancedConversionService::new();
    let map = map_with(
        vec![("f", field(vec![], Some(vec!["absent", "bad", "up"])))],
        vec![("bad", function_rule("no_such_function")), ("up", function_rule("to_uppercase"))],
    );
    let out = service.apply_field_transformations(&pairs(&[("f", "abc")]), &map);
    assert_eq!(out, pairs(&[("f", "ABC")]));
}

#[test]
fn validation_errors_and_warnings() {
    let service = EnhancedConversionService::new();
    let mut f = field(vec![], None);
    f.is_required = true;
    f.validation_rules.min_length = Some(3);
    f.validation_rules.pattern = Some(r"^\d+$".to_string());
    f.validation_rules.allowed_values = Some(strings(&["100", "200"]));
    let mut g = field(vec![], None);
    g.validation_rules.max_length = Some(2);
    let map = map_with(vec![("speed", f), ("tag", g)], vec![]);

    let res = service.validate_field_values(&pairs(&[("speed", " "), ("tag", "abc"), ("other", "")]), &map);
    assert!(!res.is_valid);
    assert_eq!(res.errors.len(), 4);
    assert_eq!(res.warnings.len(), 1);
    assert_eq!(res.field_summary[0].0, "speed");
    assert_eq!(res.field_summary[0].1.error_count, 3);
    assert_eq!(res.field_summary[0].1.warning_count, 1);
    assert_eq!(res.field_summary[1].1.error_count, 1);
    assert!(res.field_summary[2].1.is_valid);

    let ok = service.validate_field_values(&pairs(&[("speed", "100"), ("tag", "ab")]), &map);
    assert!(ok.is_valid);
    assert!(ok.errors.is_empty() && ok.warnings.is_empty());
}

#[test]
fn field_findings_with_given_pattern_outcome() {
    let mut f = field(vec![], None);
    f.validation_rules.pattern = Some("x".to_string());
    assert_eq!(EnhancedConversionService::field_findings(&f, "v", Some(false)), (1, 0));
    assert_eq!(EnhancedConversionService::field_findings(&f, "v", Some(true)), (0, 0));
    assert_eq!(EnhancedConversionService::field_findings(&f, "v", None), (0, 0));
}

#[test]
fn row_needs_one_identity_field() {
    let only_switch = pairs(&[("switch_label", "leaf1"), ("switch_ifname", "  ")]);
    let row = convert_enhanced_to_network_config_row(&only_switch).unwrap();
    assert_eq!(row.switch_label.as_deref(), Some("leaf1"));
    assert_eq!(row.switch_ifname, None);

    let only_port = pairs(&[("switch_ifname", "xe-0/0/1")]);
    assert!(convert_enhanced_to_network_config_row(&only_port).is_some());

    let neither = pairs(&[("server_label", "srv"), ("switch_label", "")]);
    assert!(convert_enhanced_to_network_config_row(&neither).is_none());
}

#[test]
fn row_fields_and_flags() {
    let data = pairs(&[
        ("switch_label", "leaf1"),
        ("switch_ifname", "et-0/0/1"),
        ("switch_tags", "a,b"),
        ("is_external", "TRUE"),
        ("comment", "  "),
    ]);
    let row = convert_enhanced_to_network_config_row(&data).unwrap();
    assert_eq!(row.link_group_tags.as_deref(), Some("a,b"));
    assert_eq!(row.is_external, Some(true));
    assert_eq!(row.comment, None);
    assert_eq!(row.blueprint, None);
    let row = convert_enhanced_to_network_config_row(&pairs(&[("switch_label", "s"), ("is_external", "yes")])).unwrap();
    assert_eq!(row.is_external, None);
}

#[test]
fn sheet_conversion_end_to_end() {
    let map = link_map();
    let grid: Vec<Vec<String>> = vec![
        strings(&["Host Name", "Switch Name", "Switch Port", "Speed", "LACP"]),
        strings(&["srv1", "leaf1", "1", "25GB", "yes"]),
        strings(&["", "leaf2", "2", "10G", "no"]),
        strings(&["", "", "", "", ""]),
        strings(&["srv2", "", "", "1G", ""]),
    ];
    let parsed = parse_worksheet_data(&grid, &map);
    assert_eq!(parsed.rows.len(), 2);
    let r0 = &parsed.rows[0];
    assert_eq!(r0.server_label.as_deref(), Some("srv1"));
    assert_eq!(r0.switch_ifname.as_deref(), Some("et-0/0/1"));
    assert_eq!(r0.link_speed.as_deref(), Some("25G"));
    assert_eq!(r0.link_group_lag_mode.as_deref(), Some("lacp_active"));
    let r1 = &parsed.rows[1];
    assert_eq!(r1.server_label.as_deref(), Some("srv1"));
    assert_eq!(r1.switch_ifname.as_deref(), Some("xe-0/0/2"));
    assert_eq!(r1.link_group_lag_mode.as_deref(), Some("none"));
    assert_eq!(parsed.rejected, vec![3, 4]);
}

#[test]
fn sheet_without_header_row_is_empty() {
    let mut map = link_map();
    map.header_row = Some(9);
    let grid: Vec<Vec<String>> = vec![strings(&["a"])];
    let parsed = parse_worksheet_data(&grid, &map);
    assert!(parsed.rows.is_empty() && parsed.rejected.is_empty());
    let parsed = parse_worksheet_data(&Vec::new(), &map);
    assert!(parsed.rows.is_empty());
}

#[test]
fn map_lookups_and_constructor() {
    let map = link_map();
    assert!(map.get_field_definition("link_speed").is_some());
    assert!(map.get_field_definition("nothing").is_none());
    assert!(map.get_transformation_rule("normalize_speed").is_some());
    let fresh = EnhancedConversionMap::new();
    assert_eq!(fresh.version, "1.0.0");
    assert_eq!(fresh.header_row, Some(2));
    assert!(fresh.field_definitions.is_empty());
    assert!(fresh.created_at.is_some());
}

#[test]
fn conversion_map_validation() {
    let service = EnhancedConversionService::new();
    let mut unnamed = field(vec![], Some(vec!["normalize_speed", "ghost"]));
    unnamed.display_name = String::new();
    let map = map_with(
        vec![("a", unnamed), ("b", field(vec![mapping("B", MappingType::Exact, 1)], None))],
        vec![("normalize_speed", function_rule("normalize_speed")), ("odd", function_rule("nope"))],
    );
    let r = service.validate_enhanced_conversion_map(&map);
    assert!(!r.is_valid);
    let errs: Vec<&str> = r.errors.iter().map(|e| e.field.as_str()).collect();
    assert_eq!(errs, vec!["a", "odd"]);
    let warns: Vec<&str> = r.warnings.iter().map(|e| e.field.as_str()).collect();
    assert_eq!(warns, vec!["a", "a"]);
    assert_eq!(r.field_summary.len(), 2);
    assert!(service.validate_enhanced_conversion_map(&link_map()).is_valid);
}

#[test]
fn table_columns_in_preferred_order() {
    let service = EnhancedConversionService::new();
    let mut extra = field(vec![], None);
    extra.ui_config = Some(linkmap::model::UiConfig { column_width: 80, sortable: false, filterable: true, hidden: true });
    let map = map_with(
        vec![
            ("zeta", extra),
            ("link_speed", field(vec![], None)),
            ("switch_label", field(vec![], None)),
        ],
        vec![],
    );
    let cols = service.generate_table_columns(&map);
    let names: Vec<&str> = cols.iter().map(|c| c.field_name.as_str()).collect();
    assert_eq!(names, vec!["switch_label", "link_speed", "zeta"]);
    assert_eq!(cols[0].width, 120);
    assert_eq!(cols[0].data_type, "String");
    assert_eq!(cols[2].width, 80);
    assert!(cols[2].hidden && !cols[2].sortable);
}

#[test]
fn default_field_definition() {
    let service = EnhancedConversionService::new();
    let d = service.create_default_field_definition("server_label", "Host Name").unwrap();
    assert_eq!(d.description, "Field definition for server_label");
    assert_eq!(d.xlsx_mappings.len(), 1);
    assert_eq!(d.xlsx_mappings[0].pattern, "Host Name");
    assert_eq!(d.xlsx_mappings[0].priority, 100);
    assert_eq!(d.ui_config.unwrap().column_width, 120);
}

#[test]
fn transform_report_lists_missing_and_failing_rules() {
    let service = EnhancedConversionService::new();
    let map = map_with(
        vec![("f", field(vec![], Some(vec!["absent", "bad", "up"])))],
        vec![("bad", function_rule("no_such_function")), ("up", function_rule("to_uppercase"))],
    );
    let report = service.transform_fields(&pairs(&[("f", "abc"), ("g", "x")]), &map);
    assert_eq!(report.fields, pairs(&[("f", "ABC"), ("g", "x")]));
    let failed: Vec<(&str, &str)> = report.failures.iter().map(|f| (f.field.as_str(), f.rule.as_str())).collect();
    assert_eq!(failed, vec![("f", "absent"), ("f", "bad")]);
    assert!(report.failures[0].error.is_none());
    assert!(report.failures[1].error.is_some());
}

#[test]
fn sheet_conversion_reports_failures_and_invalid_rows() {
    let mut lag = field(vec![mapping("LACP", MappingType::Exact, 1)], Some(vec!["lag_mode_conversion", "missing_rule"]));
    lag.validation_rules.allowed_values = Some(strings(&["lacp_active", "none", "static"]));
    let mut port = field(vec![mapping("Port", MappingType::Exact, 1)], None);
    port.validation_rules.pattern = Some(r"^(ge|xe|et)-".to_string());
    let map = map_with(
        vec![
            ("switch_label", field(vec![mapping("Switch", MappingType::Exact, 1)], None)),
            ("switch_ifname", port),
            ("link_group_lag_mode", lag),
        ],
        vec![("lag_mode_conversion", function_rule("lag_mode_conversion"))],
    );
    let grid: Vec<Vec<String>> = vec![
        strings(&["Switch", "Port", "LACP"]),
        strings(&["leaf1", "xe-0/0/1", "yes"]),
        strings(&["leaf2", "7", "no"]),
    ];
    let parsed = parse_worksheet_data(&grid, &map);
    assert_eq!(parsed.rows.len(), 2);
    let failed: Vec<(usize, &str, &str)> =
        parsed.failures.iter().map(|f| (f.row, f.field.as_str(), f.rule.as_str())).collect();
    assert_eq!(failed, vec![(1, "link_group_lag_mode", "missing_rule"), (2, "link_group_lag_mode", "missing_rule")]);
    assert_eq!(parsed.invalid, vec![2]);
}

#[test]
fn validation_lengths_in_bytes_and_messages() {
    let service = EnhancedConversionService::new();
    let mut f = field(vec![], None);
    f.validation_rules.min_length = Some(2);
    f.validation_rules.allowed_values = Some(strings(&["a", "b"]));
    let map = map_with(vec![("f", f)], vec![]);
    let res = service.validate_field_values(&pairs(&[("f", "\u{e9}")]), &map);
    assert!(res.errors.is_empty());
    assert_eq!(res.warnings.len(), 1);
    assert_eq!(res.warnings[0].field, "f");
    assert_eq!(res.warnings[0].message, "Value '\u{e9}' not in allowed values: a, b");
    let res = service.validate_field_values(&pairs(&[("f", "a")]), &map);
    assert_eq!(res.errors.len(), 1);
    assert_eq!(res.errors[0].field, "f");
    assert_eq!(res.errors[0].message, "Value too short, minimum length is 2");
}

#[test]
fn pipeline_step_failures_are_reported_per_field() {
    let service = EnhancedConversionService::new();
    let steps = vec![
        linkmap::model::TransformationStep { step_type: "bogus".to_string(), name: None, template: None, mappings: None },
        linkmap::model::TransformationStep { step_type: "function".to_string(), name: Some("to_uppercase".to_string()), template: None, mappings: None },
    ];
    let mut r = function_rule("p");
    r.logic = TransformationLogic::Pipeline { steps };
    let map = map_with(vec![("f", field(vec![], Some(vec!["p"])))], vec![("p", r)]);
    let report = service.transform_fields(&pairs(&[("f", "abc")]), &map);
    assert_eq!(report.fields, pairs(&[("f", "ABC")]));
    assert_eq!(report.failures.len(), 1);
    assert_eq!((report.failures[0].field.as_str(), report.failures[0].rule.as_str()), ("f", "p"));
}
