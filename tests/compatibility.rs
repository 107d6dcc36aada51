use linkmap::compat::{create_field_definition_from_mapping, CompatibilityService, MapFormat};
use linkmap::model::{DataType, EnhancedConversionMap, FieldDefinition, MappingType, ValidationRules, XlsxMapping};
use linkmap::service::EnhancedConversionService;
use linkmap::simple_map::ConversionMap;

fn pairs(v: &[(&str, &str)]) -> Vec<(String, String)> {
    v.iter().map(|(a, b)| (a.to_string(), b.to_string())).collect()
}

#[test]
fn migrated_definition_shape() {
    let d = create_field_definition_from_mapping("Switch", "switch_label");
    assert_eq!(d.display_name, "Switch");
    assert_eq!(d.description, "Field migrated from simple conversion map: Switch");
    assert!(d.is_required && d.is_key_field);
    assert_eq!(d.data_type, DataType::Text);
    assert_eq!(d.validation_rules.max_length, Some(255));
    assert_eq!(d.api_mappings.len(), 1);
    assert_eq!(d.api_mappings[0].primary_path, "$.switch_label");
    assert_eq!(d.ui_config.unwrap().column_width, 150);

    assert_eq!(create_field_definition_from_mapping("Ports", "port_count").data_type, DataType::Number);
    assert_eq!(create_field_definition_from_mapping("Ext", "is_external").data_type, DataType::Boolean);
    assert_eq!(create_field_definition_from_mapping("Tags", "server_tags").data_type, DataType::Array);
    assert_eq!(create_field_definition_from_mapping("Cfg", "bond_config").data_type, DataType::Json);
    let plain = create_field_definition_from_mapping("Note", "comment");
    assert!(plain.api_mappings.is_empty() && !plain.is_required);
}

#[test]
fn upgrade_and_downgrade() {
    let simple = ConversionMap::new(Some(2), pairs(&[("Switch", "switch_label"), ("Port", "switch_ifname"), ("Sw", "switch_label")]));
    let full = CompatibilityService::upgrade_simple_to_enhanced(&simple).unwrap();
    assert_eq!(full.header_row, Some(2));
    let names: Vec<&str> = full.field_definitions.iter().map(|(n, _)| n.as_str()).collect();
    assert_eq!(names, vec!["switch_label", "switch_ifname"]);
    assert_eq!(full.field_definitions[0].1.display_name, "Switch");

    let back = CompatibilityService::downgrade_enhanced_to_simple(&full).unwrap();
    assert_eq!(back.mappings, pairs(&[("Switch", "switch_label"), ("Port", "switch_ifname")]));
    assert_eq!(back.header_row, Some(2));
}

#[test]
fn downgrade_prefers_exact_pattern() {
    let mut full = EnhancedConversionMap::new();
    let mut d = create_field_definition_from_mapping("Host", "server_label");
    d.xlsx_mappings[0].mapping_type = MappingType::Partial;
    let mut exact = d.xlsx_mappings[0].clone();
    exact.pattern = "Host Name".to_string();
    exact.mapping_type = MappingType::Exact;
    d.xlsx_mappings.push(exact);
    full.field_definitions.push(("server_label".to_string(), d));
    let back = CompatibilityService::downgrade_enhanced_to_simple(&full).unwrap();
    assert_eq!(back.mappings, pairs(&[("Host Name", "server_label")]));
}

#[test]
fn merge_adds_missing_fields_only() {
    let mut full = EnhancedConversionMap::new();
    full.field_definitions.push(("switch_label".to_string(), create_field_definition_from_mapping("Switch", "switch_label")));
    let simple = ConversionMap::new(None, pairs(&[("Sw", "switch_label"), ("Speed", "link_speed")]));
    let merged = CompatibilityService::merge_maps(&simple, full).unwrap();
    let names: Vec<&str> = merged.field_definitions.iter().map(|(n, _)| n.as_str()).collect();
    assert_eq!(names, vec!["switch_label", "link_speed"]);
    assert_eq!(merged.field_definitions[0].1.display_name, "Switch");
    assert_eq!(merged.field_definitions[1].1.display_name, "Speed");
}

#[test]
fn backward_compatibility_report() {
    let mut full = EnhancedConversionMap::new();
    let mut d = create_field_definition_from_mapping("Switch", "switch_label");
    d.transformations = Some(vec!["trim".to_string()]);
    d.validation_rules.pattern = Some("x".to_string());
    d.xlsx_mappings[0].mapping_type = MappingType::Fuzzy;
    full.field_definitions.push(("switch_label".to_string(), d));
    let req = vec!["switch_label".to_string(), "switch_ifname".to_string()];
    let rep = CompatibilityService::validate_backward_compatibility(&full, &req).unwrap();
    assert!(!rep.is_compatible);
    assert_eq!(rep.missing_fields, vec!["switch_ifname".to_string()]);
    assert_eq!(rep.warnings.len(), 2);
    assert_eq!(rep.suggestions.len(), 1);
    assert_eq!(rep.suggestions[0], "Field 'switch_label' should have at least one exact mapping for better compatibility");
}

#[test]
fn format_detection_by_keys() {
    assert_eq!(CompatibilityService::detect_map_format_by_keys("{\"mappings\": 1"), Ok(MapFormat::Simple));
    assert_eq!(CompatibilityService::detect_map_format_by_keys("{\"field_definitions\": {"), Ok(MapFormat::Enhanced));
    assert_eq!(CompatibilityService::detect_map_format_by_keys("{\"transformation_rules\""), Ok(MapFormat::Enhanced));
    assert!(CompatibilityService::detect_map_format_by_keys("{}").is_err());
}

#[test]
fn migrate_simple_mappings() {
    let service = EnhancedConversionService::new();
    let m = service
        .migrate_simple_to_enhanced_map(&pairs(&[("Host Name", "server_label"), ("Host", "server_label")]), Some(3))
        .unwrap();
    assert_eq!(m.header_row, Some(3));
    assert_eq!(m.field_definitions.len(), 1);
    assert_eq!(m.field_definitions[0].1.display_name, "Host Name");
    assert_eq!(m.field_definitions[0].1.description, "Field definition for server_label");
}

#[test]
fn test_detect_simple_map_format() {
    let simple_json = r#"
        {
            "header_row": 2,
            "mappings": {
                "Switch Name": "switch_label",
                "Port": "switch_ifname"
            }
        }"#;

    let format = CompatibilityService::detect_map_format_by_keys(simple_json).unwrap();
    assert!(matches!(format, MapFormat::Simple));
}

#[test]
fn test_detect_enhanced_map_format() {
    let enhanced_json = r#"
        {
            "version": "1.0.0",
            "header_row": 2,
            "field_definitions": {},
            "transformation_rules": {}
        }"#;

    let format = CompatibilityService::detect_map_format_by_keys(enhanced_json).unwrap();
    assert!(matches!(format, MapFormat::Enhanced));
}

#[test]
fn test_upgrade_simple_to_enhanced() {
    let mappings = pairs(&[("Switch Name", "switch_label"), ("Port", "switch_ifname")]);
    let simple_map = ConversionMap::new(Some(2), mappings);

    let enhanced = CompatibilityService::upgrade_simple_to_enhanced(&simple_map).unwrap();

    assert_eq!(enhanced.header_row, Some(2));
    assert!(enhanced.get_field_definition("switch_label").is_some());
    assert!(enhanced.get_field_definition("switch_ifname").is_some());

    let switch_field = enhanced.get_field_definition("switch_label").unwrap();
    assert_eq!(switch_field.display_name, "Switch Name");
    assert!(switch_field.is_required);
}

#[test]
fn test_downgrade_enhanced_to_simple() {
    let field = FieldDefinition {
        display_name: "Switch Name".to_string(),
        description: "Switch identifier".to_string(),
        data_type: DataType::Text,
        is_required: true,
        is_key_field: true,
        xlsx_mappings: vec![XlsxMapping {
            pattern: "Switch Name".to_string(),
            mapping_type: MappingType::Exact,
            priority: 100,
            case_sensitive: false,
            transform: None,
        }],
        api_mappings: vec![],
        validation_rules: ValidationRules {
            min_length: None,
            max_length: Some(255),
            pattern: None,
            allowed_values: None,
            custom_validators: None,
        },
        ui_config: None,
        transformations: None,
    };
    let enhanced_map = EnhancedConversionMap {
        version: "1.0.0".to_string(),
        header_row: Some(2),
        field_definitions: vec![("switch_label".to_string(), field)],
        transformation_rules: vec![],
        created_at: None,
        updated_at: None,
    };

    let simple = CompatibilityService::downgrade_enhanced_to_simple(&enhanced_map).unwrap();

    assert_eq!(simple.header_row, Some(2));
    assert!(simple.get_mapped_field("Switch Name").is_some());
    assert_eq!(simple.get_mapped_field("Switch Name").unwrap(), "switch_label");
}

#[test]
fn test_validate_backward_compatibility() {
    let enhanced_map = EnhancedConversionMap {
        version: "1.0.0".to_string(),
        header_row: Some(2),
        field_definitions: vec![(
            "switch_label".to_string(),
            create_field_definition_from_mapping("Switch Name", "switch_label"),
        )],
        transformation_rules: vec![],
        created_at: None,
        updated_at: None,
    };

    let required_fields = vec!["switch_label".to_string(), "server_label".to_string()];
    let report = CompatibilityService::validate_backward_compatibility(&enhanced_map, &required_fields).unwrap();

    assert!(!report.is_compatible);
    assert_eq!(report.missing_fields.len(), 1);
    assert_eq!(report.missing_fields[0], "server_label");
}
