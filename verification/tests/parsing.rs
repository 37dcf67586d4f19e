use fx_plot::parser::{get_params, get_str_field, parse_quote, AppError};

const HAPPY: &str = "CITI|EURUSD|1.1000|1.1002|1.1001|1.1003|1.1002|1.1004|1000000000000000000";

#[test]
fn field_count_too_low() {
    assert_eq!(parse_quote("a|b|c").unwrap_err(), AppError::NumParams { found: 3 });
    assert_eq!(parse_quote("").unwrap_err(), AppError::NumParams { found: 1 });
    assert_eq!(
        parse_quote("CITI|EURUSD|1.1|1.1|1.1|1.1|1.1|1.1").unwrap_err(),
        AppError::NumParams { found: 8 },
    );
}

#[test]
fn happy_path_parses() {
    let q = parse_quote(HAPPY).unwrap();
    assert_eq!(q.provider, "CITI");
    assert_eq!(q.buy_1m, "1.1000");
    assert_eq!(q.sell_1m, "1.1002");
    assert_eq!(q.buy_3m, "1.1001");
    assert_eq!(q.sell_3m, "1.1003");
    assert_eq!(q.buy_5m, "1.1002");
    assert_eq!(q.sell_5m, "1.1004");
    assert_eq!(q.timestamp_ns, 1000000000000000000);
    assert_eq!(q.buy_1m.parse::<f64>().unwrap(), 1.1000f64);
}

#[test]
fn extra_fields_are_ignored() {
    let q = parse_quote("CITI|EURUSD|1|2|3|4|5|6|7|ignored|also ignored").unwrap();
    assert_eq!(q.provider, "CITI");
    assert_eq!(q.timestamp_ns, 7);
}

#[test]
fn fields_are_trimmed() {
    let q = parse_quote(" CITI \t| EURUSD | 1.5 | 2 | 3 | 4 | 5 | 6 | 42 ").unwrap();
    assert_eq!(q.provider, "CITI");
    assert_eq!(q.buy_1m, "1.5");
    assert_eq!(q.timestamp_ns, 42);
}

#[test]
fn empty_provider_rejected() {
    assert_eq!(
        parse_quote("   |EURUSD|1|2|3|4|5|6|7").unwrap_err(),
        AppError::IsEmpty,
    );
}

#[test]
fn empty_currency_pair_rejected() {
    assert_eq!(
        parse_quote("CITI| |1|2|3|4|5|6|7").unwrap_err(),
        AppError::IsEmpty,
    );
}

#[test]
fn bad_price_reports_field_and_text() {
    // the third price field (message position 4) is replaced by "abc"
    let raw = "CITI|EURUSD|1.1000|1.1002|abc|1.1003|1.1002|1.1004|1000000000000000000";
    assert_eq!(
        parse_quote(raw).unwrap_err(),
        AppError::ParseFloat { field: 4, text: String::from("abc") },
    );
}

#[test]
fn first_bad_price_wins() {
    let raw = "CITI|EURUSD|x|y|z|1|1|1|7";
    assert_eq!(
        parse_quote(raw).unwrap_err(),
        AppError::ParseFloat { field: 2, text: String::from("x") },
    );
}

#[test]
fn price_syntax_accepted_forms() {
    for p in ["1", "+1.5", "-0.5", "1.", ".5", "007", "1e3", "1E-2", "2.5e+10", "-.5"] {
        let raw = format!("CITI|EURUSD|{p}|1|1|1|1|1|7");
        assert!(parse_quote(&raw).is_ok(), "price {p:?} should parse");
        let v: Result<f64, _> = p.parse();
        assert!(v.is_ok(), "accepted price {p:?} must be float-parseable");
    }
}

#[test]
fn price_syntax_rejected_forms() {
    for p in ["abc", "", ".", "+", "-", "1.2.3", "e5", "1e", "1e+", "1.5x", "--1", "1 2"] {
        let raw = format!("CITI|EURUSD|{p}|1|1|1|1|1|7");
        assert!(
            matches!(parse_quote(&raw), Err(AppError::ParseFloat { field: 2, .. })),
            "price {p:?} should be rejected",
        );
    }
}

#[test]
fn bad_timestamp_rejected() {
    for t in ["", "abc", "12.5", "-5", "1e3", "18446744073709551616"] {
        let raw = format!("CITI|EURUSD|1|1|1|1|1|1|{t}");
        assert!(
            matches!(parse_quote(&raw), Err(AppError::ParseInt { .. })),
            "timestamp {t:?} should be rejected",
        );
    }
}

#[test]
fn timestamp_accepted_forms() {
    let q = parse_quote("CITI|EURUSD|1|1|1|1|1|1|+123").unwrap();
    assert_eq!(q.timestamp_ns, 123);
    let q = parse_quote("CITI|EURUSD|1|1|1|1|1|1|18446744073709551615").unwrap();
    assert_eq!(q.timestamp_ns, u64::MAX);
    let q = parse_quote("CITI|EURUSD|1|1|1|1|1|1|007").unwrap();
    assert_eq!(q.timestamp_ns, 7);
}

#[test]
fn get_params_counts_fields() {
    let fields = get_params("a|b|c", 3).unwrap();
    assert_eq!(fields, vec!["a", "b", "c"]);
    assert_eq!(get_params("a|b", 3).unwrap_err(), AppError::NumParams { found: 2 });
    // an empty message still holds one (empty) field
    let fields = get_params("", 1).unwrap();
    assert_eq!(fields, vec![""]);
    // delimiters at the edges yield empty fields
    let fields = get_params("|x|", 3).unwrap();
    assert_eq!(fields, vec!["", "x", ""]);
}

#[test]
fn get_str_field_trims_and_rejects_blank() {
    assert_eq!(get_str_field(Some("  CITI \t")).unwrap(), "CITI");
    assert_eq!(get_str_field(Some("   ")).unwrap_err(), AppError::IsEmpty);
    assert_eq!(get_str_field(Some("")).unwrap_err(), AppError::IsEmpty);
    assert_eq!(get_str_field(None).unwrap_err(), AppError::IsEmpty);
}

#[test]
fn error_messages() {
    assert_eq!(AppError::NumParams { found: 1 }.message(), "missing market data fields");
    assert_eq!(AppError::IsEmpty.message(), "empty data field");
    assert_eq!(
        AppError::ParseFloat { field: 2, text: String::from("x") }.message(),
        "invalid price field",
    );
    assert_eq!(
        AppError::ParseInt { text: String::from("x") }.message(),
        "invalid timestamp field",
    );
}
