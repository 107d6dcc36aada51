use linkmap::config::{ApstraConfig, ApstraConfigService, FileUtils};
use linkmap::contracts::{system_search_query, ApiResponse, ApiResult, Domain};
use linkmap::simple_map::{ConversionMap, ConversionService};

fn config(host: &str, port: u16, user: &str, blueprint: &str) -> ApstraConfig {
    ApstraConfig::new(host.to_string(), port, user.to_string(), "pw".to_string(), blueprint.to_string())
}

#[test]
fn test_query_format() {
    let server_name = "test-server";
    let expected_query = "match(node('system', label='test-server', name='system'))";
    let query = format!("match(node('system', label='{}', name='system'))", server_name);
    assert_eq!(query, expected_query);
}

#[test]
fn system_query_builder() {
    assert_eq!(system_search_query("test-server"), "match(node('system', label='test-server', name='system'))");
}

#[test]
fn config_validation() {
    assert!(config("10.0.0.1", 443, "admin", "bp").validate().is_ok());
    let errors = config(" ", 0, "", "bp").validate().unwrap_err();
    assert_eq!(
        errors,
        vec![
            "Apstra host cannot be empty".to_string(),
            "Apstra port must be greater than 0".to_string(),
            "Apstra username cannot be empty".to_string(),
        ]
    );
    assert_eq!(ApstraConfigService::test_connection(&config("h", 1, "u", "b")), Ok(true));
    assert_eq!(
        ApstraConfigService::test_connection(&config("h", 1, "u", "")),
        Err("Configuration validation failed: Blueprint name cannot be empty".to_string())
    );
    assert_eq!(
        ApstraConfigService::test_connection(&config("", 1, "", "b")),
        Err("Configuration validation failed: Apstra host cannot be empty, Apstra username cannot be empty".to_string())
    );
}

#[test]
fn base_url_and_masking() {
    let mut c = config("10.85.192.59", 443, "admin", "terra");
    assert_eq!(c.get_base_url(), "https://10.85.192.59:443");
    c.use_ssl = Some(false);
    c.port = 8080;
    assert_eq!(c.get_base_url(), "http://10.85.192.59:8080");
    c.use_ssl = None;
    c.port = 7;
    assert_eq!(c.get_base_url(), "https://10.85.192.59:7");
    let masked = c.mask_password();
    assert_eq!(masked.password, "\u{2022}\u{2022}\u{2022}\u{2022}\u{2022}");
    assert_eq!(masked.host, c.host);
    c.password = String::new();
    assert_eq!(c.mask_password().password, "");
}

#[test]
fn api_envelopes() {
    let ok: ApiResult<u32> = ApiResult::success(5);
    assert!(ok.success && ok.data == Some(5) && ok.error.is_none());
    let err: ApiResult<u32> = ApiResult::error("boom".to_string());
    assert!(!err.success && err.data.is_none());
    let r: ApiResponse<u32> = ApiResponse::error("bad".to_string()).with_message("note".to_string());
    assert_eq!(r.message.as_deref(), Some("note"));
    assert_eq!(r.error.as_deref(), Some("bad"));
    let s: ApiResponse<u32> = ApiResponse::success(1);
    assert!(s.success && s.message.is_none());
    assert_eq!(Domain::Provisioning.as_str(), "provisioning");
    assert_eq!(Domain::Excel.as_str(), "excel");
}

#[test]
fn file_helpers() {
    assert!(FileUtils::validate_file_type("links.xlsx"));
    assert!(!FileUtils::validate_file_type("links.xls"));
    assert_eq!(FileUtils::create_temp_file("a.xlsx").unwrap(), "temp_a.xlsx");
}

#[test]
fn simple_map_lookup_and_edits() {
    let mut map = ConversionMap::new(Some(1), vec![("Switch".to_string(), "switch_label".to_string())]);
    assert_eq!(map.get_mapped_field("Switch").as_deref(), Some("switch_label"));
    assert_eq!(map.get_mapped_field("  SWITCH ").as_deref(), Some("switch_label"));
    assert_eq!(map.get_mapped_field("Port"), None);
    map.add_mapping("Port".to_string(), "switch_ifname".to_string());
    map.add_mapping("Switch".to_string(), "server_label".to_string());
    assert_eq!(map.get_mapped_field("Switch").as_deref(), Some("server_label"));
    assert_eq!(map.mappings.len(), 2);
    map.remove_mapping("Switch");
    assert_eq!(map.get_mapped_field("Switch"), None);
    assert_eq!(map.get_mapped_field("port").as_deref(), Some("switch_ifname"));
    map.set_header_row(3);
    assert_eq!(map.header_row, Some(3));

    let converted = ConversionService::convert_headers_with_map(&vec!["PORT".to_string(), "Other".to_string()], &map);
    assert_eq!(
        converted,
        vec![
            ("PORT".to_string(), "switch_ifname".to_string()),
            ("Other".to_string(), "Other".to_string()),
        ]
    );
}

#[test]
fn synonym_table_contents() {
    let table = ConversionMap::get_default_field_variations();
    assert_eq!(table.len(), 11);
    assert_eq!(table[0].0, "server_label");
    assert!(table[0].1.contains(&"host name".to_string()));
    assert_eq!(table[10].0, "comment");
}

#[test]
fn defaults() {
    let c = ApstraConfig::default();
    assert_eq!(c.get_base_url(), "https://10.85.192.59:443");
    assert_eq!(c.username, "admin");
    let m = ConversionMap::default();
    assert_eq!(m.header_row, Some(1));
    assert!(m.mappings.is_empty());
    assert_eq!(m.field_variations.unwrap().len(), 11);
    let names = linkmap::transform::TransformationEngine::available_transformations();
    assert_eq!(names.len(), 5);
    assert_eq!(names[0], "generate_interface_name");
}
