//! The stateless message parser: one raw pipe-delimited message string in,
//! one validated [`Quote`] or one typed [`AppError`] out. Parsing is
//! all-or-nothing: no field is defaulted on error.

use vstd::prelude::*;
use crate::numbers::{check_price, is_price_text, parse_u64_str, u64_from_chars};
use crate::text::{field_views, split_chars, split_fields, trim_chars, trim_str};

verus! {

/// A rejected message, with the diagnostic the parser observed.
#[derive(Debug, Clone, PartialEq, Eq)]
pub enum AppError {
    /// Fewer `|`-delimited fields than required; carries the observed count.
    NumParams { found: usize },
    /// A required string field was empty after trimming.
    IsEmpty,
    /// A price field did not use the decimal price syntax; carries the
    /// field's zero-based position in the message and its trimmed text.
    ParseFloat { field: usize, text: String },
    /// The timestamp field did not denote a 64-bit nanosecond count;
    /// carries its trimmed text.
    ParseInt { text: String },
}

impl AppError {
    /// A short description of the failure.
    pub fn message(&self) -> (r: String)
        ensures
            self matches AppError::NumParams { .. } ==> r@ == "missing market data fields"@,
            self matches AppError::IsEmpty ==> r@ == "empty data field"@,
            self matches AppError::ParseFloat { .. } ==> r@ == "invalid price field"@,
            self matches AppError::ParseInt { .. } ==> r@ == "invalid timestamp field"@,
    {
        match self {
            AppError::NumParams { .. } => "missing market data fields".to_owned(),
            AppError::IsEmpty => "empty data field".to_owned(),
            AppError::ParseFloat { .. } => "invalid price field".to_owned(),
            AppError::ParseInt { .. } => "invalid timestamp field".to_owned(),
        }
    }
}

/// One parsed, validated market update for one provider. The six price
/// fields hold the exact trimmed decimal text that was validated; nothing
/// in the engine reads a price's numeric value, so the text is the
/// faithful record and rendering converts it when drawing.
#[derive(Debug, Clone, PartialEq, Eq)]
pub struct Quote {
    pub provider: String,
    pub buy_1m: String,
    pub sell_1m: String,
    pub buy_3m: String,
    pub sell_3m: String,
    pub buy_5m: String,
    pub sell_5m: String,
    pub timestamp_ns: u64,
}

/// The inputs on which parsing is owed to succeed: at least nine fields,
/// non-empty provider and currency-pair fields, six well-formed prices and
/// a well-formed timestamp.
pub open spec fn parse_ok(s: Seq<char>) -> bool {
    let fs = split_chars(s);
    &&& fs.len() >= 9
    &&& trim_chars(fs[0]).len() > 0
    &&& trim_chars(fs[1]).len() > 0
    &&& forall|i: int| 2 <= i < 8 ==> is_price_text(trim_chars(#[trigger] fs[i]))
    &&& u64_from_chars(trim_chars(fs[8])) is Some
}

/// Which error a rejected message yields: the checks run in order — field
/// count, provider, currency pair, the six prices left to right, then the
/// timestamp — and the first failure is reported.
pub open spec fn parse_error_spec(s: Seq<char>, e: AppError) -> bool {
    let fs = split_chars(s);
    if fs.len() < 9 {
        e matches AppError::NumParams { found } && found == fs.len()
    } else if trim_chars(fs[0]).len() == 0 || trim_chars(fs[1]).len() == 0 {
        e == AppError::IsEmpty
    } else if exists|i: int| 2 <= i < 8 && !is_price_text(trim_chars(#[trigger] fs[i])) {
        &&& e matches AppError::ParseFloat { field, text }
        &&& 2 <= field < 8
        &&& !is_price_text(trim_chars(fs[field as int]))
        &&& forall|j: int| 2 <= j < field ==> is_price_text(trim_chars(#[trigger] fs[j]))
        &&& text@ == trim_chars(fs[field as int])
    } else {
        &&& e matches AppError::ParseInt { text }
        &&& text@ == trim_chars(fs[8])
        &&& u64_from_chars(trim_chars(fs[8])) is None
    }
}

/// The field values a successfully parsed message carries.
pub open spec fn quote_from(s: Seq<char>, q: Quote) -> bool {
    let fs = split_chars(s);
    &&& q.provider@ == trim_chars(fs[0])
    &&& q.buy_1m@ == trim_chars(fs[2])
    &&& q.sell_1m@ == trim_chars(fs[3])
    &&& q.buy_3m@ == trim_chars(fs[4])
    &&& q.sell_3m@ == trim_chars(fs[5])
    &&& q.buy_5m@ == trim_chars(fs[6])
    &&& q.sell_5m@ == trim_chars(fs[7])
    &&& Some(q.timestamp_ns) == u64_from_chars(trim_chars(fs[8]))
}

/// Splits a message into its fields, requiring at least `number` of them.
pub fn get_params(data: &str, number: usize) -> (r: Result<Vec<String>, AppError>)
    ensures
        r is Ok <==> split_chars(data@).len() >= number,
        r matches Ok(v) ==> field_views(v@) == split_chars(data@),
        r matches Err(e) ==> e matches AppError::NumParams { found } && found == split_chars(
            data@,
        ).len(),
{
    let fields = split_fields(data);
    if fields.len() < number {
        Err(AppError::NumParams { found: fields.len() })
    } else {
        Ok(fields)
    }
}

/// Trims a required string field, rejecting a missing or blank one.
pub fn get_str_field<'a>(field: Option<&'a str>) -> (r: Result<&'a str, AppError>)
    ensures
        match field {
            None => r matches Err(e) && e == AppError::IsEmpty,
            Some(s) => {
                if trim_chars(s@).len() == 0 {
                    r matches Err(e) && e == AppError::IsEmpty
                } else {
                    r matches Ok(t) && t@ == trim_chars(s@)
                }
            },
        },
{
    match field {
        None => Err(AppError::IsEmpty),
        Some(s) => {
            let t = trim_str(s);
            if t.is_empty() {
                Err(AppError::IsEmpty)
            } else {
                Ok(t)
            }
        },
    }
}

/// Trims and validates the price field at position `i`, handing back its
/// trimmed text.
fn parse_price(fields: &Vec<String>, i: usize) -> (r: Result<String, AppError>)
    requires
        i < fields@.len(),
    ensures
        r is Ok <==> is_price_text(trim_chars(fields@[i as int]@)),
        r matches Ok(t) ==> t@ == trim_chars(fields@[i as int]@),
        r matches Err(e) ==> e matches AppError::ParseFloat { field, text } && field == i
            && text@ == trim_chars(fields@[i as int]@),
{
    let t = trim_str(fields[i].as_str());
    if check_price(t) {
        Ok(t.to_owned())
    } else {
        Err(AppError::ParseFloat { field: i, text: t.to_owned() })
    }
}

/// Parses one raw message into a validated quote. The message must yield at
/// least nine `|`-delimited fields: provider, currency pair, six prices and
/// a nanosecond timestamp; fields beyond the ninth are ignored.
pub fn parse_quote(raw: &str) -> (r: Result<Quote, AppError>)
    ensures
        r is Ok <==> parse_ok(raw@),
        r matches Ok(q) ==> quote_from(raw@, q),
        r matches Err(e) ==> parse_error_spec(raw@, e),
{
    let fields = match get_params(raw, 9) {
        Ok(f) => f,
        Err(e) => {
            return Err(e);
        },
    };
    proof {
        assert(forall|i: int|
            0 <= i < fields@.len() ==> field_views(fields@)[i] == #[trigger] (fields@[i])@);
        assert(forall|i: int|
            0 <= i < fields@.len() ==> #[trigger] (fields@[i])@ == split_chars(raw@)[i]);
    }
    let provider = match get_str_field(Some(fields[0].as_str())) {
        Ok(p) => p,
        Err(e) => {
            return Err(e);
        },
    };
    // the currency pair is validated the same way but not retained
    let _currency_pair = match get_str_field(Some(fields[1].as_str())) {
        Ok(c) => c,
        Err(e) => {
            return Err(e);
        },
    };
    let buy_1m = match parse_price(&fields, 2) {
        Ok(t) => t,
        Err(e) => {
            return Err(e);
        },
    };
    let sell_1m = match parse_price(&fields, 3) {
        Ok(t) => t,
        Err(e) => {
            return Err(e);
        },
    };
    let buy_3m = match parse_price(&fields, 4) {
        Ok(t) => t,
        Err(e) => {
            return Err(e);
        },
    };
    let sell_3m = match parse_price(&fields, 5) {
        Ok(t) => t,
        Err(e) => {
            return Err(e);
        },
    };
    let buy_5m = match parse_price(&fields, 6) {
        Ok(t) => t,
        Err(e) => {
            return Err(e);
        },
    };
    let sell_5m = match parse_price(&fields, 7) {
        Ok(t) => t,
        Err(e) => {
            return Err(e);
        },
    };
    let ts_text = trim_str(fields[8].as_str());
    let timestamp_ns = match parse_u64_str(ts_text) {
        Some(t) => t,
        None => {
            return Err(AppError::ParseInt { text: ts_text.to_owned() });
        },
    };
    Ok(
        Quote {
            provider: provider.to_owned(),
            buy_1m,
            sell_1m,
            buy_3m,
            sell_3m,
            buy_5m,
            sell_5m,
            timestamp_ns,
        },
    )
}

} // verus!
