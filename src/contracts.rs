//! Data exchanged with the host application and the fabric controller.

use vstd::prelude::*;
use crate::rows::NetworkConfigRow;

verus! {

/// Outcome of a controller command: data on success, a message on failure.
#[derive(Debug)]
pub struct ApiResult<T> {
    pub success: bool,
    pub data: Option<T>,
    pub error: Option<String>,
}

impl<T> ApiResult<T> {
    pub fn success(data: T) -> (r: Self)
        ensures
            r.success,
            r.data == Some(data),
            r.error is None,
    {
        ApiResult { success: true, data: Some(data), error: None }
    }

    pub fn error(message: String) -> (r: Self)
        ensures
            !r.success,
            r.data is None,
            r.error == Some(message),
    {
        ApiResult { success: false, data: None, error: Some(message) }
    }
}

/// A response with an optional informational message.
#[derive(Debug, Clone)]
pub struct ApiResponse<T> {
    pub success: bool,
    pub data: Option<T>,
    pub error: Option<String>,
    pub message: Option<String>,
}

impl<T> ApiResponse<T> {
    pub fn success(data: T) -> (r: Self)
        ensures
            r.success,
            r.data == Some(data),
            r.error is None,
            r.message is None,
    {
        ApiResponse { success: true, data: Some(data), error: None, message: None }
    }

    pub fn error(error: String) -> (r: Self)
        ensures
            !r.success,
            r.data is None,
            r.error == Some(error),
            r.message is None,
    {
        ApiResponse { success: false, data: None, error: Some(error), message: None }
    }

    pub fn with_message(self, message: String) -> (r: Self)
        ensures
            r.success == self.success,
            r.data == self.data,
            r.error == self.error,
            r.message == Some(message),
    {
        let mut s = self;
        s.message = Some(message);
        s
    }
}

/// The business domains of the application.
#[derive(Clone, Copy, Debug, PartialEq, Eq, Structural)]
pub enum Domain {
    Excel,
    Apstra,
    Conversion,
    Provisioning,
    Shared,
}

impl Domain {
    pub fn as_str(&self) -> (r: &'static str)
        ensures
            r@ == match self {
                Domain::Excel => "excel"@,
                Domain::Apstra => "apstra"@,
                Domain::Conversion => "conversion"@,
                Domain::Provisioning => "provisioning"@,
                Domain::Shared => "shared"@,
            },
    {
        match self {
            Domain::Excel => "excel",
            Domain::Apstra => "apstra",
            Domain::Conversion => "conversion",
            Domain::Provisioning => "provisioning",
            Domain::Shared => "shared",
        }
    }
}

#[derive(Debug, Clone)]
pub struct LoginInfo {
    pub base_url: String,
    pub username: String,
    pub password: String,
    pub session_id: String,
}

#[derive(Debug, Clone)]
pub struct LoginResult {
    pub session_id: String,
    pub user_id: String,
    pub token: String,
}

#[derive(Debug, Clone)]
pub struct SystemSearchRequest {
    pub session_id: String,
    pub blueprint_id: String,
    pub server_name: String,
}

#[derive(Debug, Clone)]
pub struct LoginRequest {
    pub username: String,
    pub password: String,
}

#[derive(Debug, Clone)]
pub struct LoginResponse {
    pub token: String,
    pub id: String,
}

#[derive(Debug, Clone)]
pub struct QueryRequest {
    pub query: String,
}

#[derive(Debug, Clone)]
pub struct AuthResult {
    pub success: bool,
    pub token: Option<String>,
    pub expires_at: Option<String>,
    pub error: Option<String>,
}

#[derive(Debug, Clone)]
pub struct SystemSearchResult {
    pub id: String,
    pub label: String,
    pub hostname: Option<String>,
    pub system_type: String,
    pub blueprint_id: Option<String>,
}

#[derive(Debug, Clone)]
pub struct AuthStatusPayload {
    pub authenticated: bool,
    pub expires_at: Option<String>,
}

#[derive(Debug, Clone)]
pub struct AuthStatusEvent {
    pub domain: String,
    pub event_type: String,
    pub payload: AuthStatusPayload,
    pub timestamp: String,
}

/// A workbook and the names of its sheets.
#[derive(Debug, Clone)]
pub struct ExcelFile {
    pub path: String,
    pub sheets: Vec<String>,
}

#[derive(Debug, Clone)]
pub struct ExcelCell {
    pub value: String,
    pub column_index: usize,
}

#[derive(Debug, Clone)]
pub struct ExcelRow {
    pub cells: Vec<ExcelCell>,
}

#[derive(Debug, Clone)]
pub struct ExcelSheet {
    pub name: String,
    pub data: Vec<ExcelRow>,
}

#[derive(Debug, Clone)]
pub struct ExcelValidationResult {
    pub is_valid: bool,
    pub errors: Vec<String>,
    pub warnings: Vec<String>,
}

#[derive(Debug, Clone)]
pub struct ExcelProcessingOptions {
    pub skip_empty_rows: Option<bool>,
    pub trim_whitespace: Option<bool>,
    pub header_row: Option<usize>,
}

#[derive(Debug, Clone)]
pub struct ExcelFileInfo {
    pub file_path: String,
    pub sheet_names: Vec<String>,
    pub total_sheets: usize,
}

#[derive(Clone, Copy, Debug, PartialEq, Eq, Structural)]
pub enum ProcessingStatus {
    Pending,
    InProgress,
    Completed,
    Failed,
    Cancelled,
}

#[derive(Clone, Copy, Debug, PartialEq, Eq, Structural)]
pub enum ErrorType {
    ValidationError,
    NetworkError,
    DataError,
    SystemError,
}

/// A failure while processing one row.
#[derive(Debug, Clone)]
pub struct ProcessingError {
    pub row_index: usize,
    pub error_message: String,
    pub error_type: ErrorType,
}

/// A problem found in one field of one row.
#[derive(Debug, Clone)]
pub struct RowFieldError {
    pub row_index: usize,
    pub field: String,
    pub message: String,
}

#[derive(Debug, Clone)]
pub struct DataValidationResult {
    pub valid_rows: Vec<NetworkConfigRow>,
    pub invalid_rows: Vec<NetworkConfigRow>,
    pub errors: Vec<RowFieldError>,
    pub duplicates_removed: usize,
}

#[derive(Debug, Clone)]
pub struct FieldValidationResult {
    pub field: String,
    pub value: Option<String>,
    pub is_valid: bool,
    pub errors: Vec<String>,
    pub warnings: Vec<String>,
}

#[derive(Debug, Clone)]
pub struct RowValidationResult {
    pub row_index: usize,
    pub is_valid: bool,
    pub field_results: Vec<FieldValidationResult>,
    pub row_errors: Vec<String>,
}

#[derive(Debug, Clone)]
pub struct BatchValidationResult {
    pub total_rows: usize,
    pub valid_rows: usize,
    pub invalid_rows: usize,
    pub row_results: Vec<RowValidationResult>,
    pub summary_errors: Vec<String>,
}

#[derive(Debug, Clone)]
pub enum ExcelError {
    FileNotFound { path: String },
    InvalidSheet { name: String },
    ParseError { message: String },
    IoError { message: String },
}

#[derive(Debug, Clone)]
pub enum ApstraError {
    AuthenticationFailed { reason: String },
    ApiRequestFailed { status: u16, message: String },
    InvalidConfig { field: String },
    ConnectionTimeout,
    NetworkError { message: String },
}

#[derive(Debug, Clone)]
pub enum ConversionError {
    MappingError { message: String },
    ValidationError { field: String, message: String },
    TransformationError { rule: String, message: String },
    InvalidMap { reason: String },
}

#[derive(Debug, Clone)]
pub enum ProvisioningError {
    ProcessingError { message: String },
    NetworkError { message: String },
    DataError { message: String },
    WorkflowError { step: String, message: String },
}

#[derive(Debug, Clone)]
pub enum UnifiedDomainError {
    Excel(ExcelError),
    Apstra(ApstraError),
    Conversion(ConversionError),
    Provisioning(ProvisioningError),
    Unknown { message: String },
}

} // verus!

verus! {

/// The graph query that finds a system by its label.
pub open spec fn system_query_text(server_name: Seq<char>) -> Seq<char> {
    "match(node('system', label='"@ + server_name + "', name='system'))"@
}

/// Builds the controller query for the system labelled `server_name`.
pub fn system_search_query(server_name: &str) -> (r: String)
    ensures
        r@ == system_query_text(server_name@),
{
    let mut v: Vec<char> = Vec::new();
    crate::text::push_str_chars(&mut v, "match(node('system', label='");
    crate::text::push_str_chars(&mut v, server_name);
    crate::text::push_str_chars(&mut v, "', name='system'))");
    crate::text::string_of(&v)
}

} // verus!
