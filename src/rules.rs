//! Named validation rules and the stock rule sets for link rows.

use vstd::prelude::*;
use crate::config::{decimal, decimal_chars, join_strings, joined};
use crate::merge::cells_view;
use crate::text::{owned, push_str_chars, string_of};

verus! {

/// What a validation rule checks.
#[derive(Clone, Debug)]
pub enum ValidationRuleType {
    Required,
    MinLength { min: usize },
    MaxLength { max: usize },
    Pattern { regex: String },
    OneOf { values: Vec<String> },
    Custom { validator: String },
}

/// One check on one field, with the message shown when it fails.
#[derive(Clone, Debug)]
pub struct ValidationRule {
    pub field: String,
    pub rule_type: ValidationRuleType,
    pub message: String,
    pub required: bool,
}

/// A named list of rules.
#[derive(Clone, Debug)]
pub struct ValidationRuleSet {
    pub name: String,
    pub description: Option<String>,
    pub rules: Vec<ValidationRule>,
}

/// Where and how strictly validation runs.
#[derive(Clone, Debug)]
pub struct ValidationContext {
    pub domain: String,
    pub validation_type: String,
    pub rule_set: Option<ValidationRuleSet>,
    pub strict_mode: bool,
    pub skip_warnings: bool,
    pub custom_rules: Vec<ValidationRule>,
}

impl Default for ValidationContext {
    fn default() -> (r: Self)
        ensures
            r.domain@ == "shared"@,
            r.validation_type@ == "default"@,
            r.rule_set is None,
            !r.strict_mode,
            !r.skip_warnings,
            r.custom_rules@.len() == 0,
    {
        ValidationContext {
            domain: owned("shared"),
            validation_type: owned("default"),
            rule_set: None,
            strict_mode: false,
            skip_warnings: false,
            custom_rules: Vec::new(),
        }
    }
}

/// Whether a rule is the required-value rule of `field`.
pub open spec fn is_required_rule(r: ValidationRule, field: Seq<char>) -> bool {
    r.field@ == field && r.rule_type is Required && r.required && r.message@ == field
        + " is required"@
}

/// Whether a rule is the minimum-length rule of `field`.
pub open spec fn is_min_length_rule(r: ValidationRule, field: Seq<char>, min: usize) -> bool {
    r.field@ == field && r.rule_type == (ValidationRuleType::MinLength { min }) && !r.required
        && r.message@ == field + " must be at least "@ + decimal(min as nat) + " characters"@
}

fn text2(a: &str, b: &str) -> (r: String)
    ensures
        r@ == a@ + b@,
{
    let mut v: Vec<char> = Vec::new();
    push_str_chars(&mut v, a);
    push_str_chars(&mut v, b);
    string_of(&v)
}

fn text4(a: &str, b: &str, c: &str, d: &str) -> (r: String)
    ensures
        r@ == a@ + b@ + c@ + d@,
{
    let mut v: Vec<char> = Vec::new();
    push_str_chars(&mut v, a);
    push_str_chars(&mut v, b);
    push_str_chars(&mut v, c);
    push_str_chars(&mut v, d);
    string_of(&v)
}

impl ValidationRule {
    pub fn required(field: &str) -> (r: Self)
        ensures
            is_required_rule(r, field@),
    {
        ValidationRule {
            field: owned(field),
            rule_type: ValidationRuleType::Required,
            message: text2(field, " is required"),
            required: true,
        }
    }

    pub fn min_length(field: &str, min: usize) -> (r: Self)
        ensures
            is_min_length_rule(r, field@, min),
    {
        let n = string_of(&decimal_chars(min as u64));
        ValidationRule {
            field: owned(field),
            rule_type: ValidationRuleType::MinLength { min },
            message: text4(field, " must be at least ", n.as_str(), " characters"),
            required: false,
        }
    }

    pub fn max_length(field: &str, max: usize) -> (r: Self)
        ensures
            r.field@ == field@,
            r.rule_type == (ValidationRuleType::MaxLength { max }),
            !r.required,
            r.message@ == field@ + " must be no more than "@ + decimal(max as nat) + " characters"@,
    {
        let n = string_of(&decimal_chars(max as u64));
        ValidationRule {
            field: owned(field),
            rule_type: ValidationRuleType::MaxLength { max },
            message: text4(field, " must be no more than ", n.as_str(), " characters"),
            required: false,
        }
    }

    pub fn pattern(field: &str, regex: &str, message: &str) -> (r: Self)
        ensures
            r.field@ == field@,
            r.rule_type matches ValidationRuleType::Pattern { regex: x } && x@ == regex@,
            !r.required,
            r.message@ == message@,
    {
        ValidationRule {
            field: owned(field),
            rule_type: ValidationRuleType::Pattern { regex: owned(regex) },
            message: owned(message),
            required: false,
        }
    }

    pub fn one_of(field: &str, values: Vec<String>) -> (r: Self)
        ensures
            r.field@ == field@,
            r.rule_type matches ValidationRuleType::OneOf { values: v } && v@ == values@,
            !r.required,
            r.message@ == field@ + " must be one of: "@ + joined(cells_view(values@), ", "@),
    {
        let listed = join_strings(&values, ", ");
        let prefix = text2(field, " must be one of: ");
        let message = text2(prefix.as_str(), listed.as_str());
        ValidationRule {
            field: owned(field),
            rule_type: ValidationRuleType::OneOf { values },
            message,
            required: false,
        }
    }
}

/// The rules every link row must meet, in order.
pub open spec fn basic_rules_hold(rules: Seq<ValidationRule>) -> bool {
    &&& rules.len() >= 5
    &&& is_required_rule(rules[0], "switch_label"@)
    &&& is_required_rule(rules[1], "switch_ifname"@)
    &&& is_min_length_rule(rules[2], "switch_label"@, 1)
    &&& is_min_length_rule(rules[3], "switch_ifname"@, 1)
    &&& rules[4].field@ == "link_group_lag_mode"@
    &&& rules[4].rule_type matches ValidationRuleType::OneOf { values: v } && cells_view(v@) == seq![
        "lacp_active"@,
        "static"@,
        "none"@,
    ]
}

impl ValidationRuleSet {
    /// Identity fields present and non-empty, LAG mode canonical.
    pub fn network_config_basic() -> (r: Self)
        ensures
            r.name@ == "network_config_basic"@,
            r.description matches Some(d) && d@
                == "Basic validation rules for network configuration data"@,
            r.rules@.len() == 5,
            basic_rules_hold(r.rules@),
    {
        let mut rules: Vec<ValidationRule> = Vec::new();
        rules.push(ValidationRule::required("switch_label"));
        rules.push(ValidationRule::required("switch_ifname"));
        rules.push(ValidationRule::min_length("switch_label", 1));
        rules.push(ValidationRule::min_length("switch_ifname", 1));
        let mut modes: Vec<String> = Vec::new();
        modes.push(owned("lacp_active"));
        modes.push(owned("static"));
        modes.push(owned("none"));
        assert(cells_view(modes@) =~= seq!["lacp_active"@, "static"@, "none"@]);
        rules.push(ValidationRule::one_of("link_group_lag_mode", modes));
        ValidationRuleSet {
            name: owned("network_config_basic"),
            description: Some(owned("Basic validation rules for network configuration data")),
            rules,
        }
    }

    /// The basic rules, and server identity, server interface and blueprint
    /// required as well.
    pub fn network_config_strict() -> (r: Self)
        ensures
            r.name@ == "network_config_strict"@,
            r.description matches Some(d) && d@
                == "Strict validation rules for network configuration data"@,
            r.rules@.len() == 9,
            basic_rules_hold(r.rules@),
            is_required_rule(r.rules@[5], "server_label"@),
            is_required_rule(r.rules@[6], "server_ifname"@),
            is_required_rule(r.rules@[7], "blueprint"@),
            is_min_length_rule(r.rules@[8], "blueprint"@, 1),
    {
        let basic = Self::network_config_basic();
        let mut rules = basic.rules;
        rules.push(ValidationRule::required("server_label"));
        rules.push(ValidationRule::required("server_ifname"));
        rules.push(ValidationRule::required("blueprint"));
        rules.push(ValidationRule::min_length("blueprint", 1));
        ValidationRuleSet {
            name: owned("network_config_strict"),
            description: Some(owned("Strict validation rules for network configuration data")),
            rules,
        }
    }
}

} // verus!
