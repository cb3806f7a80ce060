//! Errors raised by the library: a stable code and the offending input.
use vstd::prelude::*;

verus! {

/// The reasons an operation of the library is refused.
#[derive(Debug, Clone, Copy, PartialEq, Eq, Structural)]
pub enum ErrorCode {
    MigrationVersionFormatInvalid,
    VersionParseMajor,
    VersionParseMinor,
    VersionParsePatch,
    DataFieldsEmpty,
    QueryParseType,
    QueryParseCondType,
    QueryParseMissingField,
    QueryParseOperator,
    SemanticFieldMissing,
    SchemaNotInRegistry,
    SchemaRefNotFound,
    SchemaPointerNotFound,
    ValidationTypeMismatch,
    ValidationRequiredFieldMissing,
    ValidationNestedPropertyFail,
    SchemaInvalidRegexPattern,
    ValidationPatternPropertyFail,
    ValidationAdditionalPropertyForbidden,
    ValidationStringTooShort,
    ValidationStringTooLong,
    SchemaInvalidRegex,
    ValidationPatternMismatch,
    ValidationNumberTooSmall,
    ValidationNumberTooLarge,
    ValidationArrayTooSmall,
    ValidationArrayTooLarge,
    ValidationArrayItemFail,
    SchemaRefTooDeep,
    DocumentIdMissing,
    JsonLdContextMissing,
    SchemaAlreadyExists,
    SchemaNotFound,
    SchemaPropAlreadyExists,
    SchemaPropNotFound,
    MigrationSchemaMissing,
    MigrationIndexEmpty,
    MigrationCustomHandlerNotFound,
    DbIntegrityCompromised,
    DbCollectionNotFound,
    DbStrictSchemaRequired,
    DbUpsertMissingIdentity,
    DbUpdateTargetNotFound,
    DbEntityNotFound,
    FormatElementsMissing,
    FormatUnrecognized,
    MappingPropertyMissing,
    GeneticsMissingFunctions,
    GeneticsMissingComponents,
    IndexUniqueViolation,
    DbIndexTypeUnknown,
    DbIndexNotFound,
    DbIndexDefinitionNotFound,
    SemanticValidationFail,
    SemanticUnknownType,
    CodegenDomainUnsupported,
    NumericParseFail,
    SqlSyntax,
    SqlSingleStatementOnly,
    SqlStatementUnsupported,
    SqlInsertSourceMissing,
    SqlInsertTypeUnsupported,
    SqlInsertColumnsMismatch,
    SqlSelectExprUnsupported,
    SqlMultipleSourcesUnsupported,
    SqlFromRelationUnsupported,
    SqlExpressionUnsupported,
    SqlIdentifierExpected,
    SqlUnaryMinusTypeMismatch,
    SqlLiteralExpected,
}

/// An error of the library: its code and the input it concerns.
#[derive(Debug, Clone)]
pub struct RaiseError {
    pub code: ErrorCode,
    pub detail: String,
}

impl RaiseError {
    pub fn new(code: ErrorCode, detail: &str) -> (e: RaiseError)
        ensures
            e.code == code,
            e.detail@ == detail@,
    {
        RaiseError { code, detail: detail.to_owned() }
    }
}

/// The identifier of each code, as the application reports it.
pub open spec fn code_name(c: ErrorCode) -> Seq<char> {
    match c {
        ErrorCode::MigrationVersionFormatInvalid => "ERR_MIGRATION_VERSION_FORMAT_INVALID"@,
        ErrorCode::VersionParseMajor => "ERR_VERSION_PARSE_MAJOR"@,
        ErrorCode::VersionParseMinor => "ERR_VERSION_PARSE_MINOR"@,
        ErrorCode::VersionParsePatch => "ERR_VERSION_PARSE_PATCH"@,
        ErrorCode::DataFieldsEmpty => "ERR_DATA_FIELDS_EMPTY"@,
        ErrorCode::QueryParseType => "ERR_QUERY_PARSE_TYPE"@,
        ErrorCode::QueryParseCondType => "ERR_QUERY_PARSE_COND_TYPE"@,
        ErrorCode::QueryParseMissingField => "ERR_QUERY_PARSE_MISSING_FIELD"@,
        ErrorCode::QueryParseOperator => "ERR_QUERY_PARSE_OPERATOR"@,
        ErrorCode::SemanticFieldMissing => "ERR_SEMANTIC_FIELD_MISSING"@,
        ErrorCode::SchemaNotInRegistry => "ERR_SCHEMA_NOT_IN_REGISTRY"@,
        ErrorCode::SchemaRefNotFound => "ERR_SCHEMA_REF_NOT_FOUND"@,
        ErrorCode::SchemaPointerNotFound => "ERR_SCHEMA_POINTER_NOT_FOUND"@,
        ErrorCode::ValidationTypeMismatch => "ERR_VALIDATION_TYPE_MISMATCH"@,
        ErrorCode::ValidationRequiredFieldMissing => "ERR_VALIDATION_REQUIRED_FIELD_MISSING"@,
        ErrorCode::ValidationNestedPropertyFail => "ERR_VALIDATION_NESTED_PROPERTY_FAIL"@,
        ErrorCode::SchemaInvalidRegexPattern => "ERR_SCHEMA_INVALID_REGEX_PATTERN"@,
        ErrorCode::ValidationPatternPropertyFail => "ERR_VALIDATION_PATTERN_PROPERTY_FAIL"@,
        ErrorCode::ValidationAdditionalPropertyForbidden => "ERR_VALIDATION_ADDITIONAL_PROPERTY_FORBIDDEN"@,
        ErrorCode::ValidationStringTooShort => "ERR_VALIDATION_STRING_TOO_SHORT"@,
        ErrorCode::ValidationStringTooLong => "ERR_VALIDATION_STRING_TOO_LONG"@,
        ErrorCode::SchemaInvalidRegex => "ERR_SCHEMA_INVALID_REGEX"@,
        ErrorCode::ValidationPatternMismatch => "ERR_VALIDATION_PATTERN_MISMATCH"@,
        ErrorCode::ValidationNumberTooSmall => "ERR_VALIDATION_NUMBER_TOO_SMALL"@,
        ErrorCode::ValidationNumberTooLarge => "ERR_VALIDATION_NUMBER_TOO_LARGE"@,
        ErrorCode::ValidationArrayTooSmall => "ERR_VALIDATION_ARRAY_TOO_SMALL"@,
        ErrorCode::ValidationArrayTooLarge => "ERR_VALIDATION_ARRAY_TOO_LARGE"@,
        ErrorCode::ValidationArrayItemFail => "ERR_VALIDATION_ARRAY_ITEM_FAIL"@,
        ErrorCode::SchemaRefTooDeep => "ERR_SCHEMA_REF_TOO_DEEP"@,
        ErrorCode::DocumentIdMissing => "ERR_DB_DOCUMENT_ID_MISSING"@,
        ErrorCode::JsonLdContextMissing => "ERR_JSONLD_CONTEXT_MISSING"@,
        ErrorCode::SchemaAlreadyExists => "ERR_SCHEMA_ALREADY_EXISTS"@,
        ErrorCode::SchemaNotFound => "ERR_SCHEMA_NOT_FOUND"@,
        ErrorCode::SchemaPropAlreadyExists => "ERR_SCHEMA_PROP_ALREADY_EXISTS"@,
        ErrorCode::SchemaPropNotFound => "ERR_SCHEMA_PROP_NOT_FOUND"@,
        ErrorCode::MigrationSchemaMissing => "ERR_MIGRATION_SCHEMA_MISSING"@,
        ErrorCode::MigrationIndexEmpty => "ERR_MIGRATION_INDEX_EMPTY"@,
        ErrorCode::MigrationCustomHandlerNotFound => "ERR_MIGRATION_CUSTOM_HANDLER_NOT_FOUND"@,
        ErrorCode::DbIntegrityCompromised => "ERR_DB_INTEGRITY_COMPROMISED"@,
        ErrorCode::DbCollectionNotFound => "ERR_DB_COLLECTION_NOT_FOUND"@,
        ErrorCode::DbStrictSchemaRequired => "ERR_DB_STRICT_SCHEMA_REQUIRED"@,
        ErrorCode::DbUpsertMissingIdentity => "ERR_DB_UPSERT_MISSING_IDENTITY"@,
        ErrorCode::DbUpdateTargetNotFound => "ERR_DB_UPDATE_TARGET_NOT_FOUND"@,
        ErrorCode::DbEntityNotFound => "ERR_DB_ENTITY_NOT_FOUND"@,
        ErrorCode::FormatElementsMissing => "ERR_FORMAT_ELEMENTS_MISSING"@,
        ErrorCode::FormatUnrecognized => "ERR_FORMAT_UNRECOGNIZED"@,
        ErrorCode::MappingPropertyMissing => "ERR_MAPPING_PROPERTY_MISSING"@,
        ErrorCode::GeneticsMissingFunctions => "ERR_GENETICS_MISSING_FUNCTIONS"@,
        ErrorCode::GeneticsMissingComponents => "ERR_GENETICS_MISSING_COMPONENTS"@,
        ErrorCode::IndexUniqueViolation => "ERR_INDEX_UNIQUE_VIOLATION"@,
        ErrorCode::DbIndexTypeUnknown => "ERR_DB_INDEX_TYPE_UNKNOWN"@,
        ErrorCode::DbIndexNotFound => "ERR_DB_INDEX_NOT_FOUND"@,
        ErrorCode::DbIndexDefinitionNotFound => "ERR_DB_INDEX_DEFINITION_NOT_FOUND"@,
        ErrorCode::SemanticValidationFail => "ERR_SEMANTIC_VALIDATION_FAIL"@,
        ErrorCode::SemanticUnknownType => "ERR_SEMANTIC_UNKNOWN_TYPE"@,
        ErrorCode::CodegenDomainUnsupported => "ERR_CODEGEN_DOMAIN_UNSUPPORTED"@,
        ErrorCode::NumericParseFail => "ERR_DB_NUMERIC_PARSE_FAIL"@,
        ErrorCode::SqlSyntax => "ERR_DB_SQL_SYNTAX"@,
        ErrorCode::SqlSingleStatementOnly => "ERR_DB_SQL_SINGLE_STATEMENT_ONLY"@,
        ErrorCode::SqlStatementUnsupported => "ERR_DB_SQL_STATEMENT_UNSUPPORTED"@,
        ErrorCode::SqlInsertSourceMissing => "ERR_DB_SQL_INSERT_SOURCE_MISSING"@,
        ErrorCode::SqlInsertTypeUnsupported => "ERR_DB_SQL_INSERT_TYPE_UNSUPPORTED"@,
        ErrorCode::SqlInsertColumnsMismatch => "ERR_DB_SQL_INSERT_COLUMNS_MISMATCH"@,
        ErrorCode::SqlSelectExprUnsupported => "ERR_DB_SQL_SELECT_EXPR_UNSUPPORTED"@,
        ErrorCode::SqlMultipleSourcesUnsupported => "ERR_DB_SQL_MULTIPLE_SOURCES_UNSUPPORTED"@,
        ErrorCode::SqlFromRelationUnsupported => "ERR_DB_SQL_FROM_RELATION_UNSUPPORTED"@,
        ErrorCode::SqlExpressionUnsupported => "ERR_DB_SQL_EXPRESSION_UNSUPPORTED"@,
        ErrorCode::SqlIdentifierExpected => "ERR_DB_SQL_IDENTIFIER_EXPECTED"@,
        ErrorCode::SqlUnaryMinusTypeMismatch => "ERR_DB_SQL_UNARY_MINUS_TYPE_MISMATCH"@,
        ErrorCode::SqlLiteralExpected => "ERR_DB_SQL_LITERAL_EXPECTED"@,
    }
}

impl ErrorCode {
    /// The code's identifier as the application reports it.
    pub fn as_str(&self) -> (r: &'static str)
        ensures
            r@ == code_name(*self),
    {
        match self {
            ErrorCode::MigrationVersionFormatInvalid => "ERR_MIGRATION_VERSION_FORMAT_INVALID",
            ErrorCode::VersionParseMajor => "ERR_VERSION_PARSE_MAJOR",
            ErrorCode::VersionParseMinor => "ERR_VERSION_PARSE_MINOR",
            ErrorCode::VersionParsePatch => "ERR_VERSION_PARSE_PATCH",
            ErrorCode::DataFieldsEmpty => "ERR_DATA_FIELDS_EMPTY",
            ErrorCode::QueryParseType => "ERR_QUERY_PARSE_TYPE",
            ErrorCode::QueryParseCondType => "ERR_QUERY_PARSE_COND_TYPE",
            ErrorCode::QueryParseMissingField => "ERR_QUERY_PARSE_MISSING_FIELD",
            ErrorCode::QueryParseOperator => "ERR_QUERY_PARSE_OPERATOR",
            ErrorCode::SemanticFieldMissing => "ERR_SEMANTIC_FIELD_MISSING",
            ErrorCode::SchemaNotInRegistry => "ERR_SCHEMA_NOT_IN_REGISTRY",
            ErrorCode::SchemaRefNotFound => "ERR_SCHEMA_REF_NOT_FOUND",
            ErrorCode::SchemaPointerNotFound => "ERR_SCHEMA_POINTER_NOT_FOUND",
            ErrorCode::ValidationTypeMismatch => "ERR_VALIDATION_TYPE_MISMATCH",
            ErrorCode::ValidationRequiredFieldMissing => "ERR_VALIDATION_REQUIRED_FIELD_MISSING",
            ErrorCode::ValidationNestedPropertyFail => "ERR_VALIDATION_NESTED_PROPERTY_FAIL",
            ErrorCode::SchemaInvalidRegexPattern => "ERR_SCHEMA_INVALID_REGEX_PATTERN",
            ErrorCode::ValidationPatternPropertyFail => "ERR_VALIDATION_PATTERN_PROPERTY_FAIL",
            ErrorCode::ValidationAdditionalPropertyForbidden => "ERR_VALIDATION_ADDITIONAL_PROPERTY_FORBIDDEN",
            ErrorCode::ValidationStringTooShort => "ERR_VALIDATION_STRING_TOO_SHORT",
            ErrorCode::ValidationStringTooLong => "ERR_VALIDATION_STRING_TOO_LONG",
            ErrorCode::SchemaInvalidRegex => "ERR_SCHEMA_INVALID_REGEX",
            ErrorCode::ValidationPatternMismatch => "ERR_VALIDATION_PATTERN_MISMATCH",
            ErrorCode::ValidationNumberTooSmall => "ERR_VALIDATION_NUMBER_TOO_SMALL",
            ErrorCode::ValidationNumberTooLarge => "ERR_VALIDATION_NUMBER_TOO_LARGE",
            ErrorCode::ValidationArrayTooSmall => "ERR_VALIDATION_ARRAY_TOO_SMALL",
            ErrorCode::ValidationArrayTooLarge => "ERR_VALIDATION_ARRAY_TOO_LARGE",
            ErrorCode::ValidationArrayItemFail => "ERR_VALIDATION_ARRAY_ITEM_FAIL",
            ErrorCode::SchemaRefTooDeep => "ERR_SCHEMA_REF_TOO_DEEP",
            ErrorCode::DocumentIdMissing => "ERR_DB_DOCUMENT_ID_MISSING",
            ErrorCode::JsonLdContextMissing => "ERR_JSONLD_CONTEXT_MISSING",
            ErrorCode::SchemaAlreadyExists => "ERR_SCHEMA_ALREADY_EXISTS",
            ErrorCode::SchemaNotFound => "ERR_SCHEMA_NOT_FOUND",
            ErrorCode::SchemaPropAlreadyExists => "ERR_SCHEMA_PROP_ALREADY_EXISTS",
            ErrorCode::SchemaPropNotFound => "ERR_SCHEMA_PROP_NOT_FOUND",
            ErrorCode::MigrationSchemaMissing => "ERR_MIGRATION_SCHEMA_MISSING",
            ErrorCode::MigrationIndexEmpty => "ERR_MIGRATION_INDEX_EMPTY",
            ErrorCode::MigrationCustomHandlerNotFound => "ERR_MIGRATION_CUSTOM_HANDLER_NOT_FOUND",
            ErrorCode::DbIntegrityCompromised => "ERR_DB_INTEGRITY_COMPROMISED",
            ErrorCode::DbCollectionNotFound => "ERR_DB_COLLECTION_NOT_FOUND",
            ErrorCode::DbStrictSchemaRequired => "ERR_DB_STRICT_SCHEMA_REQUIRED",
            ErrorCode::DbUpsertMissingIdentity => "ERR_DB_UPSERT_MISSING_IDENTITY",
            ErrorCode::DbUpdateTargetNotFound => "ERR_DB_UPDATE_TARGET_NOT_FOUND",
            ErrorCode::DbEntityNotFound => "ERR_DB_ENTITY_NOT_FOUND",
            ErrorCode::FormatElementsMissing => "ERR_FORMAT_ELEMENTS_MISSING",
            ErrorCode::FormatUnrecognized => "ERR_FORMAT_UNRECOGNIZED",
            ErrorCode::MappingPropertyMissing => "ERR_MAPPING_PROPERTY_MISSING",
            ErrorCode::GeneticsMissingFunctions => "ERR_GENETICS_MISSING_FUNCTIONS",
            ErrorCode::GeneticsMissingComponents => "ERR_GENETICS_MISSING_COMPONENTS",
            ErrorCode::IndexUniqueViolation => "ERR_INDEX_UNIQUE_VIOLATION",
            ErrorCode::DbIndexTypeUnknown => "ERR_DB_INDEX_TYPE_UNKNOWN",
            ErrorCode::DbIndexNotFound => "ERR_DB_INDEX_NOT_FOUND",
            ErrorCode::DbIndexDefinitionNotFound => "ERR_DB_INDEX_DEFINITION_NOT_FOUND",
            ErrorCode::SemanticValidationFail => "ERR_SEMANTIC_VALIDATION_FAIL",
            ErrorCode::SemanticUnknownType => "ERR_SEMANTIC_UNKNOWN_TYPE",
            ErrorCode::CodegenDomainUnsupported => "ERR_CODEGEN_DOMAIN_UNSUPPORTED",
            ErrorCode::NumericParseFail => "ERR_DB_NUMERIC_PARSE_FAIL",
            ErrorCode::SqlSyntax => "ERR_DB_SQL_SYNTAX",
            ErrorCode::SqlSingleStatementOnly => "ERR_DB_SQL_SINGLE_STATEMENT_ONLY",
            ErrorCode::SqlStatementUnsupported => "ERR_DB_SQL_STATEMENT_UNSUPPORTED",
            ErrorCode::SqlInsertSourceMissing => "ERR_DB_SQL_INSERT_SOURCE_MISSING",
            ErrorCode::SqlInsertTypeUnsupported => "ERR_DB_SQL_INSERT_TYPE_UNSUPPORTED",
            ErrorCode::SqlInsertColumnsMismatch => "ERR_DB_SQL_INSERT_COLUMNS_MISMATCH",
            ErrorCode::SqlSelectExprUnsupported => "ERR_DB_SQL_SELECT_EXPR_UNSUPPORTED",
            ErrorCode::SqlMultipleSourcesUnsupported => "ERR_DB_SQL_MULTIPLE_SOURCES_UNSUPPORTED",
            ErrorCode::SqlFromRelationUnsupported => "ERR_DB_SQL_FROM_RELATION_UNSUPPORTED",
            ErrorCode::SqlExpressionUnsupported => "ERR_DB_SQL_EXPRESSION_UNSUPPORTED",
            ErrorCode::SqlIdentifierExpected => "ERR_DB_SQL_IDENTIFIER_EXPECTED",
            ErrorCode::SqlUnaryMinusTypeMismatch => "ERR_DB_SQL_UNARY_MINUS_TYPE_MISMATCH",
            ErrorCode::SqlLiteralExpected => "ERR_DB_SQL_LITERAL_EXPECTED",
        }
    }
}

} // verus!
