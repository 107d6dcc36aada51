//! The conversion-map document: canonical field definitions, their header
//! matching rules and the named transformation rules.

use vstd::prelude::*;

verus! {

/// How a header pattern is compared with a raw header.
#[derive(Clone, Copy, Debug, PartialEq, Eq, Structural)]
pub enum MappingType {
    Exact,
    Partial,
    Regex,
    Fuzzy,
}

/// Informational type of a field's values.
#[derive(Clone, Copy, Debug, PartialEq, Eq, Structural)]
pub enum DataType {
    Text,
    Number,
    Boolean,
    Array,
    Json,
}

/// One header-matching rule of a field.
#[derive(Clone, Debug)]
pub struct XlsxMapping {
    pub pattern: String,
    pub mapping_type: MappingType,
    pub priority: u32,
    pub case_sensitive: bool,
    pub transform: Option<String>,
}

/// Where a field's value sits in a controller response.
#[derive(Clone, Debug)]
pub struct ApiMapping {
    pub primary_path: String,
    pub fallback_paths: Vec<String>,
    pub transformation: Option<String>,
}

/// Per-field constraints checked by the validator.
#[derive(Clone, Debug)]
pub struct ValidationRules {
    pub min_length: Option<usize>,
    pub max_length: Option<usize>,
    pub pattern: Option<String>,
    pub allowed_values: Option<Vec<String>>,
    pub custom_validators: Option<Vec<String>>,
}

/// Presentation hints for a table column.
#[derive(Clone, Copy, Debug)]
pub struct UiConfig {
    pub column_width: u32,
    pub sortable: bool,
    pub filterable: bool,
    pub hidden: bool,
}

/// A canonical field: how to find it among headers, how to rewrite its value
/// and what to check of it.
#[derive(Clone, Debug)]
pub struct FieldDefinition {
    pub display_name: String,
    pub description: String,
    pub data_type: DataType,
    pub is_required: bool,
    pub is_key_field: bool,
    pub xlsx_mappings: Vec<XlsxMapping>,
    pub api_mappings: Vec<ApiMapping>,
    pub validation_rules: ValidationRules,
    pub ui_config: Option<UiConfig>,
    pub transformations: Option<Vec<String>>,
}

/// The kind of a transformation rule as the document names it.
#[derive(Clone, Copy, Debug, PartialEq, Eq, Structural)]
pub enum TransformationType {
    ValueMapping,
    Template,
    Function,
    Pipeline,
    Static,
    Dynamic,
    Conditional,
}

/// A gate that must hold for a rule to apply.
#[derive(Clone, Debug)]
pub enum Condition {
    /// The input must be of the named kind; `numeric_port` is the one known.
    InputType(String),
    /// When true, the context must hold a non-empty `link_speed`.
    HasSpeedData(bool),
    /// The input must be at least this many UTF-8 bytes long.
    MinLength(u64),
    /// The input must be at most this many UTF-8 bytes long.
    MaxLength(u64),
}

/// One step of a pipeline with the parameters it reads.
#[derive(Clone, Debug)]
pub struct TransformationStep {
    pub step_type: String,
    pub name: Option<String>,
    pub template: Option<String>,
    pub mappings: Option<Vec<(String, String)>>,
}

/// What a rule does to a value.
#[derive(Clone, Debug)]
pub enum TransformationLogic {
    ValueMap { mappings: Vec<(String, String)> },
    Template { template: String },
    Function { name: String },
    Pipeline { steps: Vec<TransformationStep> },
}

/// A named, conditionally applied rewriting of a field value.
#[derive(Clone, Debug)]
pub struct TransformationRule {
    pub name: String,
    pub description: String,
    pub rule_type: TransformationType,
    pub conditions: Option<Vec<Condition>>,
    pub logic: TransformationLogic,
    pub priority: u32,
}

/// The conversion map: field definitions and transformation rules, each keyed
/// by name and in a fixed order.
#[derive(Clone, Debug)]
pub struct EnhancedConversionMap {
    pub version: String,
    pub header_row: Option<u32>,
    pub field_definitions: Vec<(String, FieldDefinition)>,
    pub transformation_rules: Vec<(String, TransformationRule)>,
    pub created_at: Option<String>,
    pub updated_at: Option<String>,
}

/// Severity of a reported finding.
#[derive(Clone, Copy, Debug, PartialEq, Eq, Structural)]
pub enum ErrorSeverity {
    Error,
    Warning,
    Info,
}

/// A finding about one field or header.
#[derive(Clone, Debug)]
pub struct ValidationError {
    pub field: String,
    pub message: String,
    pub severity: ErrorSeverity,
}

/// Error and warning counts of one field.
#[derive(Clone, Copy, Debug)]
pub struct FieldValidationSummary {
    pub is_valid: bool,
    pub error_count: u32,
    pub warning_count: u32,
}

/// What the validator found in a field map.
#[derive(Clone, Debug)]
pub struct ValidationResult {
    pub is_valid: bool,
    pub errors: Vec<ValidationError>,
    pub warnings: Vec<ValidationError>,
    pub field_summary: Vec<(String, FieldValidationSummary)>,
}

/// A failure to read one field out of a controller response.
#[derive(Clone, Debug)]
pub struct ExtractionError {
    pub field: String,
    pub message: String,
    pub path: String,
}

/// A column of the provisioning table derived from a field definition.
#[derive(Clone, Debug)]
pub struct TableColumnDefinition {
    pub field_name: String,
    pub display_name: String,
    pub data_type: String,
    pub width: u32,
    pub sortable: bool,
    pub filterable: bool,
    pub hidden: bool,
    pub required: bool,
}

} // verus!
