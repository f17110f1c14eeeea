use stats_rs::binrule::{parse_bin_rule, bin_rule_output, BinRule};
use stats_rs::error::ServiceError;
use stats_rs::state::AppState;
use stats_rs::types::{BinRuleOut, CorrMethod, ErrorResponse, NormMethod, OutlierMethod};

#[test]
fn selector_defaults() {
    assert_eq!(CorrMethod::default(), CorrMethod::Pearson);
    assert_eq!(OutlierMethod::default(), OutlierMethod::Iqr);
    assert_eq!(NormMethod::default(), NormMethod::Zscore);
    let _ = AppState::default();
}

#[test]
fn service_error_messages() {
    assert_eq!(ServiceError::Empty.message(), "empty dataset");
    assert_eq!(ServiceError::NaN.message(), "not-a-number encountered");
    assert_eq!(ServiceError::CsvParse.message(), "failed to parse CSV");
    assert_eq!(
        ServiceError::NoNumeric.message(),
        "no numeric data found in CSV"
    );
    assert_eq!(ServiceError::Empty.status_code(), 400);
    assert_eq!(ServiceError::NoNumeric.status_code(), 400);
}

#[test]
fn error_response_from_error() {
    let r = ErrorResponse::from_error(&ServiceError::CsvParse);
    assert_eq!(r.code, "csv_parse");
    assert_eq!(r.message, "failed to parse CSV");
    let e = ErrorResponse::from_error(&ServiceError::Empty);
    assert_eq!(e.code, "empty");
    assert_eq!(e.message, "empty dataset");
}

#[test]
fn bin_rule_names_case_insensitive() {
    assert_eq!(parse_bin_rule("sturges"), BinRule::Sturges);
    assert_eq!(parse_bin_rule("STURGES"), BinRule::Sturges);
    assert_eq!(parse_bin_rule("Scott"), BinRule::Scott);
    assert_eq!(parse_bin_rule("fd"), BinRule::FreedmanDiaconis);
    assert_eq!(parse_bin_rule("freedmandiaconis"), BinRule::FreedmanDiaconis);
    assert_eq!(parse_bin_rule("Freedman_Diaconis"), BinRule::FreedmanDiaconis);
    assert_eq!(parse_bin_rule("auto"), BinRule::Auto);
    assert_eq!(parse_bin_rule("anything else"), BinRule::Auto);
    assert_eq!(parse_bin_rule(""), BinRule::Auto);
}

#[test]
fn bin_rule_output_shape() {
    assert_eq!(bin_rule_output(12), BinRuleOut { bins: 12 });
}
