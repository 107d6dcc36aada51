use linkmap::rules::{ValidationContext, ValidationRule, ValidationRuleSet, ValidationRuleType};

#[test]
fn rule_builders() {
    let r = ValidationRule::required("switch_label");
    assert_eq!(r.message, "switch_label is required");
    assert!(r.required);
    let r = ValidationRule::min_length("blueprint", 12);
    assert_eq!(r.message, "blueprint must be at least 12 characters");
    assert!(matches!(r.rule_type, ValidationRuleType::MinLength { min: 12 }));
    let r = ValidationRule::max_length("comment", 255);
    assert_eq!(r.message, "comment must be no more than 255 characters");
    let r = ValidationRule::pattern("port", "^et-", "bad port");
    assert_eq!(r.message, "bad port");
    let r = ValidationRule::one_of("mode", vec!["a".to_string(), "b".to_string()]);
    assert_eq!(r.message, "mode must be one of: a, b");
}

#[test]
fn stock_rule_sets() {
    let basic = ValidationRuleSet::network_config_basic();
    assert_eq!(basic.name, "network_config_basic");
    assert_eq!(basic.rules.len(), 5);
    assert_eq!(basic.rules[4].message, "link_group_lag_mode must be one of: lacp_active, static, none");
    let strict = ValidationRuleSet::network_config_strict();
    assert_eq!(strict.rules.len(), 9);
    assert_eq!(strict.rules[8].message, "blueprint must be at least 1 characters");
    let ctx = ValidationContext::default();
    assert_eq!(ctx.domain, "shared");
    assert!(ctx.rule_set.is_none());
}
