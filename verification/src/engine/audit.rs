//! Audit-log configuration.

use vstd::prelude::*;

use crate::clock::unix_time_secs;
use crate::codec::concat_str;
use crate::text::{decimal_nat, padded_decimal, zero_padded};

verus! {

/// Audit configuration.
#[derive(Debug, Clone)]
pub struct AuditConfig {
    /// Enable audit logging.
    pub enabled: bool,
    /// Audit level: `none`, `write` or `all`.
    pub level: String,
    /// Fields redacted from audit entries.
    pub redact_fields: Vec<String>,
    /// Maximum entries kept in memory.
    pub max_memory_entries: usize,
    /// File path of the audit log, if any.
    pub log_file: Option<String>,
}

impl Default for AuditConfig {
    /// Enabled at level `write`, redacting `password`, `token` and `secret`,
    /// keeping up to 10000 entries in memory, with no log file.
    fn default() -> (c: Self)
        ensures
            c.enabled,
            c.level@ == "write"@,
            c.redact_fields@.len() == 3,
            c.redact_fields@[0]@ == "password"@,
            c.redact_fields@[1]@ == "token"@,
            c.redact_fields@[2]@ == "secret"@,
            c.max_memory_entries == 10000,
            c.log_file is None,
    {
        let mut redact_fields: Vec<String> = Vec::new();
        redact_fields.push("password".to_string());
        redact_fields.push("token".to_string());
        redact_fields.push("secret".to_string());
        AuditConfig {
            enabled: true,
            level: "write".to_string(),
            redact_fields,
            max_memory_entries: 10000,
            log_file: None,
        }
    }
}

/// The ISO-like text of a time `secs` seconds after the Unix epoch:
/// `YYYY-MM-DDTHH:MM:SSZ`, with the year approximated as `days / 365.25`
/// (for every `u64` time this floor equals `4 * days / 1461` exactly) and
/// month and day approximated by 30-day months of a 365-day year.
pub open spec fn iso_like_text(secs: nat) -> Seq<char> {
    let days = secs / 86400;
    let tod = secs % 86400;
    let doy = days % 365;
    zero_padded(decimal_nat(1970 + (4 * days) / 1461), 4) + "-"@ + zero_padded(decimal_nat(doy / 30 + 1), 2)
        + "-"@ + zero_padded(decimal_nat(doy % 30 + 1), 2) + "T"@ + zero_padded(decimal_nat(tod / 3600), 2)
        + ":"@ + zero_padded(decimal_nat((tod % 3600) / 60), 2) + ":"@ + zero_padded(decimal_nat(tod % 60), 2)
        + "Z"@
}

/// The ISO-like text of the time `secs` seconds after the Unix epoch (see
/// `iso_like_text`).
pub fn iso_like_timestamp(secs: u64) -> (s: String)
    ensures
        s@ == iso_like_text(secs as nat),
{
    let days = secs / 86400;
    let tod = secs % 86400;
    let doy = days % 365;
    let year = 1970 + (4 * days) / 1461;
    let s = padded_decimal(year, 4);
    let s = concat_str(s, "-");
    let s = concat_str(s, padded_decimal(doy / 30 + 1, 2).as_str());
    let s = concat_str(s, "-");
    let s = concat_str(s, padded_decimal(doy % 30 + 1, 2).as_str());
    let s = concat_str(s, "T");
    let s = concat_str(s, padded_decimal(tod / 3600, 2).as_str());
    let s = concat_str(s, ":");
    let s = concat_str(s, padded_decimal((tod % 3600) / 60, 2).as_str());
    let s = concat_str(s, ":");
    let s = concat_str(s, padded_decimal(tod % 60, 2).as_str());
    concat_str(s, "Z")
}

/// The ISO-like text of the current wall-clock time.
pub fn chrono_like_timestamp() -> (s: String)
    ensures
        exists|secs: u64| s@ == iso_like_text(secs as nat),
{
    iso_like_timestamp(unix_time_secs())
}

} // verus!
