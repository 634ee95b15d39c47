//! The audit settings, which also govern the HTTP access logs, and their
//! key/value form in the settings table.
use vstd::prelude::*;
use crate::text::{
    all_digits, chars_of, decimal, digits_value, owned, parse_u64, parse_unsigned, push_char,
    push_decimal, push_text, same_text,
};

verus! {

/// Default number of bytes kept of each input or output.
pub const DEFAULT_DETAIL_LIMIT_BYTES: i64 = 262144;

/// Milliseconds in a day.
pub const MILLIS_PER_DAY: i64 = 86400000;

/// The longest retention that can be configured, in days.
pub const MAX_RETENTION_DAYS: u32 = 36500;

/// Switches, retention periods and detail policy of the HTTP logs and the
/// tool audit. `detail_limit_bytes` is -1 to keep no bodies, 0 to keep them
/// whole, or the largest number of bytes kept of each input and output.
#[derive(Clone, Copy, PartialEq, Eq, Structural, Debug)]
pub struct AuditConfig {
    pub http_log_enabled: bool,
    pub http_log_retention_days: u32,
    pub tool_audit_enabled: bool,
    pub tool_audit_retention_days: u32,
    pub detail_limit_bytes: i64,
}

impl AuditConfig {
    /// Everything on, 30 days kept, 256 KiB of each body.
    pub open spec fn defaults() -> AuditConfig {
        AuditConfig {
            http_log_enabled: true,
            http_log_retention_days: 30,
            tool_audit_enabled: true,
            tool_audit_retention_days: 30,
            detail_limit_bytes: DEFAULT_DETAIL_LIMIT_BYTES,
        }
    }
}

impl Default for AuditConfig {
    fn default() -> (r: Self)
        ensures
            r == AuditConfig::defaults(),
    {
        AuditConfig {
            http_log_enabled: true,
            http_log_retention_days: 30,
            tool_audit_enabled: true,
            tool_audit_retention_days: 30,
            detail_limit_bytes: DEFAULT_DETAIL_LIMIT_BYTES,
        }
    }
}

/// Why the audit store refused or failed an operation.
#[derive(Debug)]
pub enum AuditError {
    Unavailable(String),
    Database(String),
    Json(String),
    Poisoned,
    InvalidDetailLimit,
    InvalidConfig(String),
    InvalidRetentionDays,
}

impl AuditError {
    /// The text the error is reported with.
    pub open spec fn message_spec(&self) -> Seq<char> {
        match self {
            AuditError::Unavailable(m) => "audit storage is unavailable: "@ + m@,
            AuditError::Database(m) => "audit database error: "@ + m@,
            AuditError::Json(m) => "audit JSON serialization error: "@ + m@,
            AuditError::Poisoned => "audit storage lock is poisoned"@,
            AuditError::InvalidDetailLimit => "detail_limit_bytes must be -1, 0, or a positive integer"@,
            AuditError::InvalidConfig(m) => "invalid audit configuration value: "@ + m@,
            AuditError::InvalidRetentionDays => "retention days must be between 0 and 36500"@,
        }
    }

    /// The text the error is reported with.
    pub fn message(&self) -> (r: String)
        ensures
            r@ == self.message_spec(),
    {
        match self {
            AuditError::Unavailable(m) => {
                let mut s = owned("audit storage is unavailable: ");
                push_text(&mut s, m.as_str());
                s
            },
            AuditError::Database(m) => {
                let mut s = owned("audit database error: ");
                push_text(&mut s, m.as_str());
                s
            },
            AuditError::Json(m) => {
                let mut s = owned("audit JSON serialization error: ");
                push_text(&mut s, m.as_str());
                s
            },
            AuditError::Poisoned => owned("audit storage lock is poisoned"),
            AuditError::InvalidDetailLimit => owned(
                "detail_limit_bytes must be -1, 0, or a positive integer",
            ),
            AuditError::InvalidConfig(m) => {
                let mut s = owned("invalid audit configuration value: ");
                push_text(&mut s, m.as_str());
                s
            },
            AuditError::InvalidRetentionDays => owned("retention days must be between 0 and 36500"),
        }
    }
}

/// A detail limit is -1, 0 or positive.
pub fn validate_detail_limit(limit: i64) -> (r: Result<(), AuditError>)
    ensures
        limit >= -1 <==> r is Ok,
        r matches Err(e) ==> e is InvalidDetailLimit,
{
    if limit < -1 {
        Err(AuditError::InvalidDetailLimit)
    } else {
        Ok(())
    }
}

/// A configuration that can be stored: a valid detail limit and retention
/// periods of at most 36500 days.
pub open spec fn valid_config(c: AuditConfig) -> bool {
    c.detail_limit_bytes >= -1 && c.http_log_retention_days <= MAX_RETENTION_DAYS
        && c.tool_audit_retention_days <= MAX_RETENTION_DAYS
}

/// Checks a configuration before it is stored; the detail limit is checked
/// first.
pub fn validate_config(config: &AuditConfig) -> (r: Result<(), AuditError>)
    ensures
        r is Ok <==> valid_config(*config),
        config.detail_limit_bytes < -1 ==> (r matches Err(e) && e is InvalidDetailLimit),
        config.detail_limit_bytes >= -1 && !valid_config(*config) ==> (r matches Err(e)
            && e is InvalidRetentionDays),
{
    match validate_detail_limit(config.detail_limit_bytes) {
        Ok(()) => {},
        Err(e) => {
            return Err(e);
        },
    }
    if config.http_log_retention_days > MAX_RETENTION_DAYS || config.tool_audit_retention_days
        > MAX_RETENTION_DAYS {
        return Err(AuditError::InvalidRetentionDays);
    }
    Ok(())
}

/// `bool::to_string`.
pub open spec fn bool_text(b: bool) -> Seq<char> {
    if b {
        "true"@
    } else {
        "false"@
    }
}

/// `i64::to_string`: a minus sign for negative values, then the decimal
/// digits of the magnitude.
pub open spec fn signed_decimal(v: int) -> Seq<char> {
    if v < 0 {
        "-"@ + decimal((-v) as nat)
    } else {
        decimal(v as nat)
    }
}

/// Writes an `i64` in decimal.
pub fn signed_decimal_string(v: i64) -> (r: String)
    ensures
        r@ == signed_decimal(v as int),
{
    let mut s = String::new();
    if v < 0 {
        push_char(&mut s, '-');
        let m: i128 = 0i128 - (v as i128);
        push_decimal(&mut s, m as u64);
        assert(s@ =~= "-"@ + decimal((-v) as nat)) by {
            reveal_strlit("-");
        }
    } else {
        push_decimal(&mut s, v as u64);
        assert(s@ =~= decimal(v as nat));
    }
    s
}

/// The settings table's rows for a configuration, in a fixed order.
pub open spec fn entries_of(c: AuditConfig) -> Seq<(Seq<char>, Seq<char>)> {
    seq![
        ("http_log_enabled"@, bool_text(c.http_log_enabled)),
        ("http_log_retention_days"@, decimal(c.http_log_retention_days as nat)),
        ("tool_audit_enabled"@, bool_text(c.tool_audit_enabled)),
        ("tool_audit_retention_days"@, decimal(c.tool_audit_retention_days as nat)),
        ("detail_limit_bytes"@, signed_decimal(c.detail_limit_bytes as int)),
    ]
}

fn bool_string(b: bool) -> (r: String)
    ensures
        r@ == bool_text(b),
{
    if b {
        owned("true")
    } else {
        owned("false")
    }
}

/// The key/value rows that store a configuration.
pub fn config_entries(config: &AuditConfig) -> (r: Vec<(&'static str, String)>)
    ensures
        r@.map_values(|e: (&'static str, String)| (e.0@, e.1@)) == entries_of(*config),
{
    let mut r: Vec<(&'static str, String)> = Vec::new();
    r.push(("http_log_enabled", bool_string(config.http_log_enabled)));
    r.push(
        ("http_log_retention_days", crate::text::decimal_string(config.http_log_retention_days as u64)),
    );
    r.push(("tool_audit_enabled", bool_string(config.tool_audit_enabled)));
    r.push(
        (
            "tool_audit_retention_days",
            crate::text::decimal_string(config.tool_audit_retention_days as u64),
        ),
    );
    r.push(("detail_limit_bytes", signed_decimal_string(config.detail_limit_bytes)));
    assert(r@.map_values(|e: (&'static str, String)| (e.0@, e.1@)) =~= entries_of(*config));
    r
}

/// What `str::parse::<i64>` gives: an optional sign, then at least one
/// decimal digit, and a value in range.
pub open spec fn parse_i64_spec(s: Seq<char>) -> Option<int> {
    if s.len() > 0 && s[0] == '-' {
        let d = s.drop_first();
        if d.len() > 0 && all_digits(d) && digits_value(d) <= 0x8000_0000_0000_0000 {
            Some(-digits_value(d))
        } else {
            None
        }
    } else {
        match parse_unsigned(s, i64::MAX as nat) {
            Some(n) => Some(n as int),
            None => None,
        }
    }
}

/// Parses a signed decimal that must fit an `i64`; `str::parse::<i64>`.
pub fn parse_i64(s: &[char]) -> (r: Option<i64>)
    ensures
        match parse_i64_spec(s@) {
            Some(v) => r == Some(v as i64),
            None => r is None,
        },
{
    if s.len() > 0 && s[0] == '-' {
        let ghost d = s@.drop_first();
        let digits = crate::text::sub_chars(s, 1, s.len());
        assert(digits@ =~= d);
        if digits.len() == 0 || digits[0] == '+' {
            proof {
                if digits@.len() > 0 {
                    assert(!crate::text::is_digit(d[0]));
                }
            }
            return None;
        }
        match parse_u64(digits.as_slice()) {
            Some(m) => {
                if m > 0x8000_0000_0000_0000 {
                    None
                } else {
                    let v: i128 = 0i128 - (m as i128);
                    Some(v as i64)
                }
            },
            None => None,
        }
    } else {
        match parse_u64(s) {
            Some(m) => {
                if m > 0x7FFF_FFFF_FFFF_FFFF {
                    None
                } else {
                    Some(m as i64)
                }
            },
            None => None,
        }
    }
}

/// A boolean setting: `true` or `1`, `false` or `0`.
pub open spec fn bool_setting(v: Seq<char>) -> Option<bool> {
    if v == "true"@ || v == "1"@ {
        Some(true)
    } else if v == "false"@ || v == "0"@ {
        Some(false)
    } else {
        None
    }
}

/// The refusal of a stored value, naming its key: `key=value`.
pub open spec fn bad_setting(key: Seq<char>, value: Seq<char>) -> Seq<char> {
    key + "="@ + value
}

fn invalid_config(key: &str, value: &str) -> (e: AuditError)
    ensures
        e matches AuditError::InvalidConfig(m) && m@ == bad_setting(key@, value@),
{
    let mut m = owned(key);
    push_text(&mut m, "=");
    push_text(&mut m, value);
    AuditError::InvalidConfig(m)
}

/// Reads a stored boolean setting.
pub fn read_bool_config(key: &str, value: &str) -> (r: Result<bool, AuditError>)
    ensures
        match bool_setting(value@) {
            Some(b) => r == Ok::<bool, AuditError>(b),
            None => r matches Err(AuditError::InvalidConfig(m)) && m@ == bad_setting(key@, value@),
        },
{
    if same_text(value, "true") || same_text(value, "1") {
        Ok(true)
    } else if same_text(value, "false") || same_text(value, "0") {
        Ok(false)
    } else {
        Err(invalid_config(key, value))
    }
}

/// Reads a stored `u32` setting.
pub fn read_u32_config(key: &str, value: &str) -> (r: Result<u32, AuditError>)
    ensures
        match parse_unsigned(value@, u32::MAX as nat) {
            Some(n) => r matches Ok(v) && v == n,
            None => r matches Err(AuditError::InvalidConfig(m)) && m@ == bad_setting(key@, value@),
        },
{
    let v = chars_of(value);
    match parse_u64(v.as_slice()) {
        Some(n) => {
            if n > 0xFFFF_FFFF {
                Err(invalid_config(key, value))
            } else {
                Ok(n as u32)
            }
        },
        None => Err(invalid_config(key, value)),
    }
}

/// Reads the stored detail limit: an `i64` of -1 or more.
pub fn read_i64_config(key: &str, value: &str) -> (r: Result<i64, AuditError>)
    ensures
        match parse_i64_spec(value@) {
            Some(n) => if n >= -1 {
                r matches Ok(v) && v == n
            } else {
                r matches Err(e) && e is InvalidDetailLimit
            },
            None => r matches Err(AuditError::InvalidConfig(m)) && m@ == bad_setting(key@, value@),
        },
{
    let v = chars_of(value);
    match parse_i64(v.as_slice()) {
        Some(n) => {
            match validate_detail_limit(n) {
                Ok(()) => Ok(n),
                Err(e) => Err(e),
            }
        },
        None => Err(invalid_config(key, value)),
    }
}

/// Builds the configuration from the stored values of its five keys, read
/// in the order of [`entries_of`], and checks it; any damaged value refuses
/// the whole configuration.
pub fn config_from_values(
    http_log_enabled: &str,
    http_log_retention_days: &str,
    tool_audit_enabled: &str,
    tool_audit_retention_days: &str,
    detail_limit_bytes: &str,
) -> (r: Result<AuditConfig, AuditError>)
    ensures
        r matches Ok(c) ==> valid_config(c) && bool_setting(http_log_enabled@) == Some(
            c.http_log_enabled,
        ) && parse_unsigned(http_log_retention_days@, u32::MAX as nat) == Some(
            c.http_log_retention_days as nat,
        ) && bool_setting(tool_audit_enabled@) == Some(c.tool_audit_enabled) && parse_unsigned(
            tool_audit_retention_days@,
            u32::MAX as nat,
        ) == Some(c.tool_audit_retention_days as nat) && parse_i64_spec(detail_limit_bytes@)
            == Some(c.detail_limit_bytes as int),
        (bool_setting(http_log_enabled@) is Some && parse_unsigned(
            http_log_retention_days@,
            u32::MAX as nat,
        ) is Some && bool_setting(tool_audit_enabled@) is Some && parse_unsigned(
            tool_audit_retention_days@,
            u32::MAX as nat,
        ) is Some && (parse_i64_spec(detail_limit_bytes@) matches Some(d) && d >= -1)) ==> (r is Ok
            <==> parse_unsigned(http_log_retention_days@, u32::MAX as nat).unwrap()
            <= MAX_RETENTION_DAYS && parse_unsigned(tool_audit_retention_days@, u32::MAX as nat).unwrap()
            <= MAX_RETENTION_DAYS),
{
    let a = match read_bool_config("http_log_enabled", http_log_enabled) {
        Ok(v) => v,
        Err(e) => {
            return Err(e);
        },
    };
    let b = match read_u32_config("http_log_retention_days", http_log_retention_days) {
        Ok(v) => v,
        Err(e) => {
            return Err(e);
        },
    };
    let c = match read_bool_config("tool_audit_enabled", tool_audit_enabled) {
        Ok(v) => v,
        Err(e) => {
            return Err(e);
        },
    };
    let d = match read_u32_config("tool_audit_retention_days", tool_audit_retention_days) {
        Ok(v) => v,
        Err(e) => {
            return Err(e);
        },
    };
    let e = match read_i64_config("detail_limit_bytes", detail_limit_bytes) {
        Ok(v) => v,
        Err(err) => {
            return Err(err);
        },
    };
    let config = AuditConfig {
        http_log_enabled: a,
        http_log_retention_days: b,
        tool_audit_enabled: c,
        tool_audit_retention_days: d,
        detail_limit_bytes: e,
    };
    match validate_config(&config) {
        Ok(()) => Ok(config),
        Err(err) => Err(err),
    }
}

/// Storing a valid configuration and reading its rows back gives the same
/// configuration.
pub proof fn lemma_config_roundtrip(c: AuditConfig)
    requires
        valid_config(c),
    ensures
        bool_setting(entries_of(c)[0].1) == Some(c.http_log_enabled),
        parse_unsigned(entries_of(c)[1].1, u32::MAX as nat) == Some(c.http_log_retention_days as nat),
        bool_setting(entries_of(c)[2].1) == Some(c.tool_audit_enabled),
        parse_unsigned(entries_of(c)[3].1, u32::MAX as nat) == Some(c.tool_audit_retention_days as nat),
        parse_i64_spec(entries_of(c)[4].1) == Some(c.detail_limit_bytes as int),
{
    reveal_strlit("true");
    reveal_strlit("false");
    reveal_strlit("1");
    reveal_strlit("0");
    reveal_strlit("-");
    assert("false"@.len() == 5 && "true"@.len() == 4 && "1"@.len() == 1 && "0"@.len() == 1);
    assert(bool_setting("true"@) == Some(true));
    assert(bool_setting("false"@) == Some(false));
    crate::text::lemma_decimal_digits(c.http_log_retention_days as nat);
    crate::text::lemma_decimal_digits(c.tool_audit_retention_days as nat);
    assert(entries_of(c)[1].1 == decimal(c.http_log_retention_days as nat));
    assert(entries_of(c)[3].1 == decimal(c.tool_audit_retention_days as nat));
    let d = c.detail_limit_bytes as int;
    if d < 0 {
        crate::text::lemma_decimal_digits((-d) as nat);
        let s = "-"@ + decimal((-d) as nat);
        assert(s.drop_first() =~= decimal((-d) as nat));
    } else {
        crate::text::lemma_decimal_digits(d as nat);
    }
}

} // verus!
