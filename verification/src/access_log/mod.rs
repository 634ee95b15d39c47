//! HTTP access logs: one file per workspace, service and local date in the
//! combined format, and queries that merge them.
//!
//! Logging is a side channel: reading its settings, cleaning up or writing
//! may fail without changing the HTTP response that was served.
use vstd::prelude::*;
use vstd::multiset::Multiset;
use vstd::string::StringSliceAdditionalSpecFns;
use crate::text::{
    all_ws, chars_of, decimal, is_ws, is_whitespace, occurs_at, owned, parse_unsigned, parse_u64,
    push_char, push_decimal, push_range, push_text, split_chars, split_on, split_words,
    string_of, text_at, texts, trim_bounds, trim_spec, words,
};
use crate::order::{Ranked, is_ranked, rank, str_lt, str_less, lemma_str_lt_asym, lemma_str_lt_trans, lemma_str_lt_neg_trans};

pub mod merge;

verus! {

/// Records returned when a query names no limit.
pub const DEFAULT_ACCESS_LOG_RECORD_LIMIT: u32 = 100;

/// The most records one query returns.
pub const MAX_ACCESS_LOG_RECORD_LIMIT: u32 = 1000;

/// How far the merged candidates may grow past the limit before they are
/// cut back, so that a scan never holds all of history.
pub const ACCESS_LOG_COMPACT_SLACK: usize = 128;

/// What a query asks for. Times are the half-open range `[from_ms, to_ms)`;
/// `successful` narrows the returned records only, never the statistics of
/// the same workspaces, services and time range; `limit` is clamped to
/// `1..=1000`.
pub struct AccessLogQuery {
    pub workspace_id: Option<String>,
    pub service: Option<String>,
    pub from_ms: Option<i64>,
    pub to_ms: Option<i64>,
    pub successful: Option<bool>,
    pub limit: Option<u32>,
}

impl Default for AccessLogQuery {
    fn default() -> (r: Self)
        ensures
            r.workspace_id is None,
            r.service is None,
            r.from_ms is None,
            r.to_ms is None,
            r.successful is None,
            r.limit is None,
    {
        AccessLogQuery {
            workspace_id: None,
            service: None,
            from_ms: None,
            to_ms: None,
            successful: None,
            limit: None,
        }
    }
}

/// Totals over every request in a query's range, whatever its status filter.
#[derive(Clone, Copy, PartialEq, Eq, Structural, Debug)]
pub struct AccessLogStats {
    pub total_requests: u64,
    pub status_2xx: u64,
    pub status_3xx: u64,
    pub status_4xx: u64,
    pub status_5xx: u64,
    pub response_bytes: u64,
}

impl Default for AccessLogStats {
    fn default() -> (r: Self)
        ensures
            r == AccessLogStats::zero(),
    {
        AccessLogStats {
            total_requests: 0,
            status_2xx: 0,
            status_3xx: 0,
            status_4xx: 0,
            status_5xx: 0,
            response_bytes: 0,
        }
    }
}

impl AccessLogStats {
    /// No requests counted.
    pub open spec fn zero() -> AccessLogStats {
        AccessLogStats {
            total_requests: 0,
            status_2xx: 0,
            status_3xx: 0,
            status_4xx: 0,
            status_5xx: 0,
            response_bytes: 0,
        }
    }
}

/// One parsed line: the fields that index it and the line as written.
/// Combined timestamps have whole seconds; `file_order`, the line's number in
/// its file, orders requests of the same second.
#[derive(Debug)]
pub struct AccessLogRecord {
    pub workspace_id: String,
    pub service: String,
    pub timestamp_ms: i64,
    pub status: u16,
    pub response_bytes: u64,
    pub file_order: u64,
    pub raw: String,
}

/// The model of a record.
pub struct RecordView {
    pub workspace_id: Seq<char>,
    pub service: Seq<char>,
    pub timestamp_ms: i64,
    pub status: u16,
    pub response_bytes: u64,
    pub file_order: u64,
    pub raw: Seq<char>,
}

impl View for AccessLogRecord {
    type V = RecordView;

    open spec fn view(&self) -> RecordView {
        RecordView {
            workspace_id: self.workspace_id@,
            service: self.service@,
            timestamp_ms: self.timestamp_ms,
            status: self.status,
            response_bytes: self.response_bytes,
            file_order: self.file_order,
            raw: self.raw@,
        }
    }
}

/// The views of a list of records.
pub open spec fn record_views(v: Seq<AccessLogRecord>) -> Seq<RecordView> {
    v.map_values(|r: AccessLogRecord| r@)
}

/// The statistics of a query and its newest records.
pub struct AccessLogResult {
    pub stats: AccessLogStats,
    pub records: Vec<AccessLogRecord>,
}

impl Default for AccessLogResult {
    fn default() -> (r: Self)
        ensures
            r.stats == AccessLogStats::zero(),
            r.records@.len() == 0,
    {
        AccessLogResult { stats: AccessLogStats::default(), records: Vec::new() }
    }
}

/// An uppercase hexadecimal digit.
pub open spec fn hex_upper(d: nat) -> char {
    if d < 10 {
        (48 + d) as char
    } else {
        (55 + d) as char
    }
}

fn hex_upper_digit(d: u8) -> (c: char)
    requires
        d < 16,
    ensures
        c == hex_upper(d as nat),
{
    if d < 10 {
        (48 + d) as char
    } else {
        (55 + d) as char
    }
}

/// A byte kept as it is: printable ASCII other than `"` and `\`.
pub open spec fn kept_byte(b: u8) -> bool {
    0x20 <= b <= 0x7E && b != 0x22 && b != 0x5C
}

/// How one byte is written: itself, or `\xHH` in uppercase hexadecimal.
pub open spec fn escape_byte(b: u8) -> Seq<char> {
    if kept_byte(b) {
        seq![b as char]
    } else {
        seq!['\\', 'x', hex_upper((b / 16) as nat), hex_upper((b % 16) as nat)]
    }
}

/// The escaped form of a byte string.
pub open spec fn escape_bytes(s: Seq<u8>) -> Seq<char>
    decreases s.len(),
{
    if s.len() == 0 {
        Seq::empty()
    } else {
        escape_bytes(s.drop_last()) + escape_byte(s.last())
    }
}

/// Printable ASCII that can stand inside a double-quoted combined field.
pub open spec fn line_safe(c: char) -> bool {
    ' ' <= c <= '~' && c != '"'
}

/// Escaped text is printable ASCII on one line and holds no double quote.
pub proof fn lemma_escape_line_safe(s: Seq<u8>)
    ensures
        forall|k: int| 0 <= k < escape_bytes(s).len() ==> line_safe(#[trigger] escape_bytes(s)[k]),
    decreases s.len(),
{
    if s.len() > 0 {
        lemma_escape_line_safe(s.drop_last());
        let a = escape_bytes(s.drop_last());
        let b = escape_byte(s.last());
        assert forall|k: int| 0 <= k < escape_bytes(s).len() implies line_safe(
            #[trigger] escape_bytes(s)[k],
        ) by {
            if k < a.len() {
                assert(escape_bytes(s)[k] == a[k]);
            } else {
                assert(escape_bytes(s)[k] == b[k - a.len()]);
            }
        }
    }
}

/// Writes any text as one line of safe ASCII that can be embedded in a
/// double-quoted combined field.
pub fn escape_log_value(value: &str) -> (r: String)
    ensures
        r@ == escape_bytes(value.spec_bytes()),
{
    let bytes = value.as_bytes();
    let mut out = String::new();
    let mut i: usize = 0;
    while i < bytes.len()
        invariant
            i <= bytes@.len(),
            out@ == escape_bytes(bytes@.subrange(0, i as int)),
        decreases bytes.len() - i,
    {
        let b = bytes[i];
        let ghost before = out@;
        if 0x20 <= b && b <= 0x7E && b != 0x22 && b != 0x5C {
            push_char(&mut out, b as char);
        } else {
            push_char(&mut out, '\\');
            push_char(&mut out, 'x');
            push_char(&mut out, hex_upper_digit(b / 16));
            push_char(&mut out, hex_upper_digit(b % 16));
        }
        assert(out@ =~= before + escape_byte(b));
        assert(bytes@.subrange(0, i + 1).drop_last() =~= bytes@.subrange(0, i as int));
        i = i + 1;
    }
    assert(bytes@.subrange(0, i as int) =~= bytes@);
    out
}

/// The combined log line, in the shape nginx writes it.
pub open spec fn combined_line(
    client_ip: Seq<char>,
    timestamp: Seq<char>,
    method: Seq<u8>,
    uri: Seq<u8>,
    version: Seq<char>,
    status: u16,
    response_bytes: u64,
    referer: Seq<u8>,
    user_agent: Seq<u8>,
) -> Seq<char> {
    client_ip + " - - ["@ + timestamp + "] \""@ + escape_bytes(method) + " "@ + escape_bytes(uri)
        + " "@ + version + "\" "@ + decimal(status as nat) + " "@ + decimal(response_bytes as nat)
        + " \""@ + escape_bytes(referer) + "\" \""@ + escape_bytes(user_agent) + "\""@
}

/// Writes a line in nginx's combined shape. The client address, method,
/// URI, referer and user agent are escaped; writer and parser agree on the
/// field positions.
pub fn format_combined_line(
    client_ip: &str,
    timestamp: &str,
    method: &str,
    uri: &str,
    version: &str,
    status: u16,
    response_bytes: u64,
    referer: &str,
    user_agent: &str,
) -> (r: String)
    ensures
        r@ == combined_line(
            escape_bytes(client_ip.spec_bytes()),
            timestamp@,
            method.spec_bytes(),
            uri.spec_bytes(),
            version@,
            status,
            response_bytes,
            referer.spec_bytes(),
            user_agent.spec_bytes(),
        ),
{
    let mut out = escape_log_value(client_ip);
    push_text(&mut out, " - - [");
    push_text(&mut out, timestamp);
    push_text(&mut out, "] \"");
    let m = escape_log_value(method);
    push_text(&mut out, m.as_str());
    push_text(&mut out, " ");
    let u = escape_log_value(uri);
    push_text(&mut out, u.as_str());
    push_text(&mut out, " ");
    push_text(&mut out, version);
    push_text(&mut out, "\" ");
    push_decimal(&mut out, status as u64);
    push_text(&mut out, " ");
    push_decimal(&mut out, response_bytes);
    push_text(&mut out, " \"");
    let f = escape_log_value(referer);
    push_text(&mut out, f.as_str());
    push_text(&mut out, "\" \"");
    let a = escape_log_value(user_agent);
    push_text(&mut out, a.as_str());
    push_text(&mut out, "\"");
    out
}

/// Success is a 2xx or 3xx status, failure a 4xx or 5xx one.
pub open spec fn success_filter(status: u16, successful: Option<bool>) -> bool {
    match successful {
        None => true,
        Some(true) => 200 <= status <= 399,
        Some(false) => 400 <= status <= 599,
    }
}

/// Whether a status passes the query's success filter.
pub fn matches_success_filter(status: u16, successful: Option<bool>) -> (r: bool)
    ensures
        r == success_filter(status, successful),
{
    match successful {
        None => true,
        Some(true) => 200 <= status && status <= 399,
        Some(false) => 400 <= status && status <= 599,
    }
}

/// `a + b`, stopping at the largest `u64`.
pub open spec fn sat_add(a: u64, b: u64) -> u64 {
    if a + b > u64::MAX {
        u64::MAX
    } else {
        (a + b) as u64
    }
}

/// The statistics after counting one more request.
pub open spec fn counted(s: AccessLogStats, status: u16, bytes: u64) -> AccessLogStats {
    AccessLogStats {
        total_requests: sat_add(s.total_requests, 1),
        response_bytes: sat_add(s.response_bytes, bytes),
        status_2xx: if 200 <= status <= 299 { sat_add(s.status_2xx, 1) } else { s.status_2xx },
        status_3xx: if 300 <= status <= 399 { sat_add(s.status_3xx, 1) } else { s.status_3xx },
        status_4xx: if 400 <= status <= 499 { sat_add(s.status_4xx, 1) } else { s.status_4xx },
        status_5xx: if 500 <= status <= 599 { sat_add(s.status_5xx, 1) } else { s.status_5xx },
    }
}

/// A counter raised by one, stopping at the largest `u64`.
pub open spec fn raised(c: u64) -> u64 {
    if c < u64::MAX {
        (c + 1) as u64
    } else {
        c
    }
}

/// Counting a request raises the total by one and, for a status from 200
/// to 599, exactly the counter of its class (the status's hundreds digit)
/// by one; the other class counters stay. Every counter stops at the
/// largest `u64`; the response bytes grow by the request's size, up to the
/// largest `u64`.
pub proof fn lemma_counted_class(s: AccessLogStats, status: u16, bytes: u64)
    ensures
        counted(s, status, bytes).total_requests == raised(s.total_requests),
        s.response_bytes + bytes <= u64::MAX ==> counted(s, status, bytes).response_bytes
            == s.response_bytes + bytes,
        s.response_bytes + bytes > u64::MAX ==> counted(s, status, bytes).response_bytes == u64::MAX,
        counted(s, status, bytes).status_2xx == (if status / 100 == 2 {
            raised(s.status_2xx)
        } else {
            s.status_2xx
        }),
        counted(s, status, bytes).status_3xx == (if status / 100 == 3 {
            raised(s.status_3xx)
        } else {
            s.status_3xx
        }),
        counted(s, status, bytes).status_4xx == (if status / 100 == 4 {
            raised(s.status_4xx)
        } else {
            s.status_4xx
        }),
        counted(s, status, bytes).status_5xx == (if status / 100 == 5 {
            raised(s.status_5xx)
        } else {
            s.status_5xx
        }),
{
}

/// Below saturation, the four class counters together grow by one for a
/// request whose status lies in 200..=599 and stay for any other.
pub proof fn lemma_classes_count_statuses(s: AccessLogStats, status: u16, bytes: u64)
    requires
        s.status_2xx < u64::MAX,
        s.status_3xx < u64::MAX,
        s.status_4xx < u64::MAX,
        s.status_5xx < u64::MAX,
    ensures
        ({
            let c = counted(s, status, bytes);
            c.status_2xx + c.status_3xx + c.status_4xx + c.status_5xx == s.status_2xx + s.status_3xx
                + s.status_4xx + s.status_5xx + if 200 <= status < 600 {
                1int
            } else {
                0int
            }
        }),
{
}

/// Counts one request: its status class and its response size; every
/// counter saturates.
pub fn update_access_stats(stats: &mut AccessLogStats, record: &AccessLogRecord)
    ensures
        *final(stats) == counted(*old(stats), record.status, record.response_bytes),
{
    stats.total_requests = stats.total_requests.saturating_add(1);
    stats.response_bytes = stats.response_bytes.saturating_add(record.response_bytes);
    let status = record.status;
    if 200 <= status && status <= 299 {
        stats.status_2xx = stats.status_2xx.saturating_add(1);
    } else if 300 <= status && status <= 399 {
        stats.status_3xx = stats.status_3xx.saturating_add(1);
    } else if 400 <= status && status <= 499 {
        stats.status_4xx = stats.status_4xx.saturating_add(1);
    } else if 500 <= status && status <= 599 {
        stats.status_5xx = stats.status_5xx.saturating_add(1);
    }
}

} // verus!

verus! {

/// The request time written in a combined line, as `chrono` reads it with
/// the format `%d/%b/%Y:%H:%M:%S %z`, in milliseconds since the epoch.
pub uninterp spec fn combined_time_ms(text: Seq<char>) -> Option<i64>;

/// `chrono::DateTime::parse_from_str` with the combined time format, then
/// `timestamp_millis`; the result is named [`combined_time_ms`]. A text the
/// format accepts holds only digits, a month name, signs, slashes, colons
/// and whitespace, so never a double quote.
#[verifier::external_body]
fn parse_combined_time(text: &str) -> (r: Option<i64>)
    ensures
        r == combined_time_ms(text@),
        r is Some ==> forall|k: int| 0 <= k < text@.len() ==> #[trigger] text@[k] != '"',
{
    chrono::DateTime::parse_from_str(text, "%d/%b/%Y:%H:%M:%S %z").ok().map(|t| t.timestamp_millis())
}

/// The fields of a combined line that index it.
pub struct CombinedFields {
    pub timestamp: String,
    pub status: u16,
    pub response_bytes: u64,
}

/// The time field of a trimmed prefix: what follows the client address,
/// trimmed.
pub open spec fn stamp_of(prefix: Seq<char>) -> Seq<char> {
    trim_spec(prefix.subrange(crate::text::word_run(prefix, 0) as int, prefix.len() as int))
}

/// The time text, status and response size of a combined line, if it has
/// the shape this module writes: at least five double quotes; before the
/// first, a client address and `- - [time]`; between the first two, exactly
/// three words; after the second, a status that fits a `u16` and a size that
/// fits a `u64`.
pub open spec fn combined_fields(raw: Seq<char>) -> Option<(Seq<char>, u16, u64)> {
    let parts = split_on(raw, '"');
    let prefix = trim_spec(parts[0]);
    let stamp = stamp_of(prefix);
    let rw = words(trim_spec(parts[2]));
    if parts.len() < 6 || prefix.len() == 0 || stamp.len() < 6 || !occurs_at(stamp, 0, "- - ["@)
        || stamp.last() != ']' || words(parts[1]).len() != 3 || rw.len() < 2 {
        None
    } else {
        match (parse_unsigned(rw[0], 65535), parse_unsigned(rw[1], u64::MAX as nat)) {
            (Some(st), Some(b)) => Some((stamp.subrange(5, stamp.len() - 1), st as u16, b as u64)),
            _ => None,
        }
    }
}

/// Reads the indexed fields of a combined line; `None` for a line of any
/// other shape.
pub fn split_combined_line(raw: &str) -> (r: Option<CombinedFields>)
    ensures
        match combined_fields(raw@) {
            None => r is None,
            Some((t, st, b)) => r matches Some(f) && f.timestamp@ == t && f.status == st
                && f.response_bytes == b,
        },
{
    proof {
        reveal_strlit("- - [");
    }
    let v = chars_of(raw);
    let parts = split_chars(v.as_slice(), '"');
    if parts.len() < 6 {
        return None;
    }
    assert(texts(parts@)[0] == parts@[0]@);
    assert(texts(parts@)[1] == parts@[1]@);
    assert(texts(parts@)[2] == parts@[2]@);
    let (a, b) = trim_bounds(parts[0].as_slice());
    let prefix = crate::text::sub_chars(parts[0].as_slice(), a, b);
    if a == b {
        return None;
    }
    let n = crate::text::word_run_at(prefix.as_slice(), 0);
    let after = crate::text::sub_chars(prefix.as_slice(), n, prefix.len());
    let (c, d) = trim_bounds(after.as_slice());
    let stamp = crate::text::sub_chars(after.as_slice(), c, d);
    assert(stamp@ == stamp_of(prefix@));
    if stamp.len() < 6 || !text_at(stamp.as_slice(), 0, "- - [") || stamp[stamp.len() - 1] != ']' {
        return None;
    }
    let request = split_words(parts[1].as_slice());
    if request.len() != 3 {
        return None;
    }
    let (e, f) = trim_bounds(parts[2].as_slice());
    let response = crate::text::sub_chars(parts[2].as_slice(), e, f);
    let rw = split_words(response.as_slice());
    if rw.len() < 2 {
        return None;
    }
    assert(texts(rw@)[0] == rw@[0]@);
    assert(texts(rw@)[1] == rw@[1]@);
    let status = match parse_u64(rw[0].as_slice()) {
        Some(s) => s,
        None => {
            return None;
        },
    };
    if status > 65535 {
        return None;
    }
    let bytes = match parse_u64(rw[1].as_slice()) {
        Some(s) => s,
        None => {
            return None;
        },
    };
    let timestamp = string_of(crate::text::sub_chars(stamp.as_slice(), 5, stamp.len() - 1).as_slice());
    Some(CombinedFields { timestamp, status: status as u16, response_bytes: bytes })
}

/// A record from the fields of a line and the time read from it; `None`
/// when the time could not be read.
pub fn record_from_fields(
    workspace_id: &str,
    service: &str,
    raw: String,
    fields: CombinedFields,
    timestamp_ms: Option<i64>,
) -> (r: Option<AccessLogRecord>)
    ensures
        match timestamp_ms {
            None => r is None,
            Some(ms) => r matches Some(rec) && rec@ == (RecordView {
                workspace_id: workspace_id@,
                service: service@,
                timestamp_ms: ms,
                status: fields.status,
                response_bytes: fields.response_bytes,
                file_order: 0,
                raw: raw@,
            }),
        },
{
    match timestamp_ms {
        None => None,
        Some(ms) => Some(
            AccessLogRecord {
                workspace_id: owned(workspace_id),
                service: owned(service),
                timestamp_ms: ms,
                status: fields.status,
                response_bytes: fields.response_bytes,
                file_order: 0,
                raw,
            },
        ),
    }
}

/// The record a line of this module's logs describes, `None` for a line
/// that is not one; the raw line is kept whole for display.
pub open spec fn parsed_record(workspace_id: Seq<char>, service: Seq<char>, raw: Seq<char>) -> Option<
    RecordView,
> {
    match combined_fields(raw) {
        None => None,
        Some((t, st, b)) => match combined_time_ms(t) {
            None => None,
            Some(ms) => Some(
                RecordView {
                    workspace_id,
                    service,
                    timestamp_ms: ms,
                    status: st,
                    response_bytes: b,
                    file_order: 0,
                    raw,
                },
            ),
        },
    }
}

/// Parses a line written by this module; any malformed structure or number
/// gives `None` so that a query skips the line.
pub fn parse_access_log_line(workspace_id: &str, service: &str, raw: String) -> (r: Option<
    AccessLogRecord,
>)
    ensures
        match parsed_record(workspace_id@, service@, raw@) {
            None => r is None,
            Some(v) => r matches Some(rec) && rec@ == v,
        },
{
    let fields = match split_combined_line(raw.as_str()) {
        Some(f) => f,
        None => {
            return None;
        },
    };
    let ms = parse_combined_time(fields.timestamp.as_str());
    record_from_fields(workspace_id, service, raw, fields, ms)
}

} // verus!

verus! {

/// Presentation order: newer requests first; within one time, by workspace
/// and service name; within one file and time, later lines first.
pub open spec fn view_precedes(a: RecordView, b: RecordView) -> bool {
    ||| a.timestamp_ms > b.timestamp_ms
    ||| (a.timestamp_ms == b.timestamp_ms && (str_lt(a.workspace_id, b.workspace_id) || (
    a.workspace_id == b.workspace_id && (str_lt(a.service, b.service) || (a.service == b.service
        && a.file_order >= b.file_order)))))
}

/// Every record comes no later than the records after it.
pub open spec fn views_ranked(s: Seq<RecordView>) -> bool {
    forall|i: int, j: int| #![trigger s[i], s[j]] 0 <= i < j < s.len() ==> view_precedes(s[i], s[j])
}

/// `r` is the first `limit` records of `v` in presentation order.
pub open spec fn newest(r: Seq<RecordView>, v: Seq<RecordView>, limit: nat) -> bool {
    exists|s: Seq<RecordView>|
        #[trigger] views_ranked(s) && s.to_multiset() == v.to_multiset() && r == s.take(
            if limit < s.len() {
                limit as int
            } else {
                s.len() as int
            },
        )
}

impl Ranked for AccessLogRecord {
    open spec fn precedes(&self, other: &Self) -> bool {
        view_precedes(self@, other@)
    }

    proof fn lemma_precedes_total(a: &Self, b: &Self) {
        crate::order::lemma_str_lt_total(a.workspace_id@, b.workspace_id@);
        crate::order::lemma_str_lt_total(a.service@, b.service@);
    }

    proof fn lemma_precedes_trans(a: &Self, b: &Self, c: &Self) {
        if str_lt(a.workspace_id@, b.workspace_id@) && str_lt(b.workspace_id@, c.workspace_id@) {
            lemma_str_lt_trans(a.workspace_id@, b.workspace_id@, c.workspace_id@);
        }
        if str_lt(a.service@, b.service@) && str_lt(b.service@, c.service@) {
            lemma_str_lt_trans(a.service@, b.service@, c.service@);
        }
    }

    fn precedes_exec(&self, other: &Self) -> (r: bool) {
        if self.timestamp_ms != other.timestamp_ms {
            return self.timestamp_ms > other.timestamp_ms;
        }
        let aw = chars_of(self.workspace_id.as_str());
        let bw = chars_of(other.workspace_id.as_str());
        if str_less(&aw, &bw) {
            return true;
        }
        if str_less(&bw, &aw) {
            proof {
                lemma_str_lt_asym(aw@, bw@);
            }
            return false;
        }
        proof {
            crate::order::lemma_str_lt_total(aw@, bw@);
        }
        let a_s = chars_of(self.service.as_str());
        let b_s = chars_of(other.service.as_str());
        if str_less(&a_s, &b_s) {
            return true;
        }
        if str_less(&b_s, &a_s) {
            proof {
                lemma_str_lt_asym(a_s@, b_s@);
            }
            return false;
        }
        proof {
            crate::order::lemma_str_lt_total(a_s@, b_s@);
        }
        self.file_order >= other.file_order
    }
}

/// Records in presentation order have ranked views.
proof fn lemma_ranked_views(s: Seq<AccessLogRecord>)
    requires
        is_ranked(s),
    ensures
        views_ranked(record_views(s)),
{
    let v = record_views(s);
    assert forall|i: int, j: int| #![trigger v[i], v[j]] 0 <= i < j < v.len() implies view_precedes(
        v[i],
        v[j],
    ) by {
        assert(s[i].precedes(&s[j]));
    }
}

/// Cuts merged candidates down to the newest `limit` records.
pub fn trim_access_records(records: &mut Vec<AccessLogRecord>, limit: usize)
    ensures
        newest(record_views(final(records)@), record_views(old(records)@), limit as nat),
{
    let mut all: Vec<AccessLogRecord> = Vec::new();
    std::mem::swap(&mut all, records);
    let ghost before = all@;
    let mut sorted = rank(all);
    proof {
        lemma_ranked_views(sorted@);
        crate::order::lemma_multiset_map(sorted@, before, |r: AccessLogRecord| r@);
    }
    let ghost full = record_views(sorted@);
    sorted.truncate(limit);
    proof {
        let k = if (limit as nat) < full.len() {
            limit as int
        } else {
            full.len() as int
        };
        assert(record_views(sorted@) =~= full.take(k));
        assert(views_ranked(full));
    }
    *records = sorted;
}

/// How many records a query returns: its limit, or 100, within `1..=1000`.
pub open spec fn limit_of(limit: Option<u32>) -> nat {
    let l = match limit {
        Some(l) => l as nat,
        None => 100,
    };
    if l < 1 {
        1
    } else if l > 1000 {
        1000
    } else {
        l
    }
}

/// The number of records a query returns.
pub fn record_limit(limit: Option<u32>) -> (r: usize)
    ensures
        r as nat == limit_of(limit),
{
    let l: u32 = match limit {
        Some(l) => l,
        None => DEFAULT_ACCESS_LOG_RECORD_LIMIT,
    };
    let c: u32 = if l < 1 {
        1
    } else if l > MAX_ACCESS_LOG_RECORD_LIMIT {
        MAX_ACCESS_LOG_RECORD_LIMIT
    } else {
        l
    };
    c as usize
}

/// The services a query scans: `all` (the default) names both.
pub open spec fn services_of(service: Option<Seq<char>>) -> Option<Seq<Seq<char>>> {
    match service {
        None => Some(seq!["mcp"@, "actions"@]),
        Some(s) => if s == "all"@ {
            Some(seq!["mcp"@, "actions"@])
        } else if s == "mcp"@ {
            Some(seq!["mcp"@])
        } else if s == "actions"@ {
            Some(seq!["actions"@])
        } else {
            None
        },
    }
}

/// The refusal of a service name that is none of `all`, `mcp`, `actions`.
pub open spec fn unknown_service_message(s: Seq<char>) -> Seq<char> {
    "unknown access log service: "@ + s
}

/// The services a query scans; an unknown name is refused, so that no other
/// log is mixed into the HTTP statistics.
pub fn access_services(service: &Option<String>) -> (r: Result<Vec<&'static str>, String>)
    ensures
        match services_of(crate::monitor::model::opt_view(*service)) {
            Some(v) => r matches Ok(names) && names@.map_values(|n: &'static str| n@) == v,
            None => r matches Err(m) && service matches Some(s) && m@ == unknown_service_message(
                s@,
            ),
        },
{
    let mut names: Vec<&'static str> = Vec::new();
    match service {
        None => {
            names.push("mcp");
            names.push("actions");
        },
        Some(s) => {
            if crate::text::same_text(s.as_str(), "all") {
                names.push("mcp");
                names.push("actions");
            } else if crate::text::same_text(s.as_str(), "mcp") {
                names.push("mcp");
            } else if crate::text::same_text(s.as_str(), "actions") {
                names.push("actions");
            } else {
                let mut m = owned("unknown access log service: ");
                push_text(&mut m, s.as_str());
                return Err(m);
            }
        },
    }
    assert(names@.map_values(|n: &'static str| n@) =~= services_of(
        crate::monitor::model::opt_view(*service),
    ).unwrap());
    Ok(names)
}

/// A time within the query's range `[from_ms, to_ms)`.
pub open spec fn in_range(t: i64, from_ms: Option<i64>, to_ms: Option<i64>) -> bool {
    (from_ms matches Some(f) ==> t >= f) && (to_ms matches Some(e) ==> t < e)
}

/// `v` with the given line number.
pub open spec fn numbered(v: RecordView, file_order: u64) -> RecordView {
    RecordView { file_order, ..v }
}

/// Candidate count at which a scan cuts its candidates back.
pub open spec fn compact_at(record_limit: usize) -> nat {
    if record_limit + ACCESS_LOG_COMPACT_SLACK > usize::MAX {
        usize::MAX as nat
    } else {
        (record_limit + ACCESS_LOG_COMPACT_SLACK) as nat
    }
}

impl AccessLogResult {
    /// Takes one line of a scanned file into the result. A line that does
    /// not parse, or falls outside the time range, is skipped; any other is
    /// counted in the statistics, and kept as a candidate record when it
    /// passes the success filter. When the candidates reach the limit plus
    /// the slack, they are cut back to the newest `record_limit`.
    pub fn scan_line(
        &mut self,
        workspace_id: &str,
        service: &str,
        line: String,
        file_order: u64,
        query: &AccessLogQuery,
        record_limit: usize,
    )
        ensures
            match parsed_record(workspace_id@, service@, line@) {
                None => final(self).stats == old(self).stats && final(self).records@ == old(
                    self,
                ).records@,
                Some(v) => {
                    let rec = numbered(v, file_order);
                    let pushed = record_views(old(self).records@).push(rec);
                    if !in_range(rec.timestamp_ms, query.from_ms, query.to_ms) {
                        final(self).stats == old(self).stats && final(self).records@ == old(
                            self,
                        ).records@
                    } else {
                        &&& final(self).stats == counted(old(self).stats, rec.status, rec.response_bytes)
                        &&& if !success_filter(rec.status, query.successful) {
                            final(self).records@ == old(self).records@
                        } else if pushed.len() >= compact_at(record_limit) {
                            newest(record_views(final(self).records@), pushed, record_limit as nat)
                        } else {
                            record_views(final(self).records@) == pushed
                        }
                    }
                },
            },
    {
        let mut record = match parse_access_log_line(workspace_id, service, line) {
            Some(r) => r,
            None => {
                return;
            },
        };
        record.file_order = file_order;
        let outside_from = match query.from_ms {
            Some(f) => record.timestamp_ms < f,
            None => false,
        };
        let outside_to = match query.to_ms {
            Some(t) => record.timestamp_ms >= t,
            None => false,
        };
        if outside_from || outside_to {
            return;
        }
        update_access_stats(&mut self.stats, &record);
        if !matches_success_filter(record.status, query.successful) {
            return;
        }
        let ghost rv = record@;
        let ghost before = record_views(self.records@);
        self.records.push(record);
        assert(record_views(self.records@) =~= before.push(rv));
        if self.records.len() >= record_limit.saturating_add(ACCESS_LOG_COMPACT_SLACK) {
            trim_access_records(&mut self.records, record_limit);
        }
    }
}

} // verus!

verus! {

/// The service and date text of an access log file name,
/// `{service}-access-{date}.log` with service `mcp` or `actions`.
pub open spec fn log_name_parts(name: Seq<char>) -> Option<(Seq<char>, Seq<char>)> {
    let (service, rest) = if occurs_at(name, 0, "mcp-access-"@) {
        ("mcp"@, name.subrange(11, name.len() as int))
    } else if occurs_at(name, 0, "actions-access-"@) {
        ("actions"@, name.subrange(15, name.len() as int))
    } else {
        (Seq::empty(), Seq::empty())
    };
    if service.len() == 0 || rest.len() < 4 || rest.subrange(rest.len() - 4, rest.len() as int)
        != ".log"@ {
        None
    } else {
        Some((service, rest.subrange(0, rest.len() - 4)))
    }
}

/// Splits an access log file name into its service and date text.
pub fn split_log_name(name: &str) -> (r: Option<(&'static str, String)>)
    ensures
        match log_name_parts(name@) {
            None => r is None,
            Some((s, d)) => r matches Some((rs, rd)) && rs@ == s && rd@ == d,
        },
{
    proof {
        reveal_strlit("mcp-access-");
        reveal_strlit("actions-access-");
        reveal_strlit(".log");
        reveal_strlit("mcp");
        reveal_strlit("actions");
    }
    let v = chars_of(name);
    let (service, start): (&'static str, usize) = if text_at(v.as_slice(), 0, "mcp-access-") {
        ("mcp", 11)
    } else if text_at(v.as_slice(), 0, "actions-access-") {
        ("actions", 15)
    } else {
        return None;
    };
    let rest = crate::text::sub_chars(v.as_slice(), start, v.len());
    if rest.len() < 4 || !text_at(rest.as_slice(), rest.len() - 4, ".log") {
        return None;
    }
    let date = string_of(crate::text::sub_chars(rest.as_slice(), 0, rest.len() - 4).as_slice());
    Some((service, date))
}

/// The date a file name's date text gives, as `chrono` reads it with the
/// format `%Y-%m-%d`, counted in days from the first day of the common era
/// (day 1 is 0001-01-01).
pub uninterp spec fn log_date_days(text: Seq<char>) -> Option<i32>;

/// `chrono::NaiveDate::parse_from_str` with `%Y-%m-%d`, then
/// `num_days_from_ce`; the result is named [`log_date_days`].
#[verifier::external_body]
fn parse_log_date(text: &str) -> (r: Option<i32>)
    ensures
        r == log_date_days(text@),
{
    chrono::NaiveDate::parse_from_str(text, "%Y-%m-%d").ok().map(
        |d| chrono::Datelike::num_days_from_ce(&d),
    )
}

/// The service and day of an access log file, `None` for any other file.
pub open spec fn log_name(name: Seq<char>) -> Option<(Seq<char>, i32)> {
    match log_name_parts(name) {
        None => None,
        Some((s, d)) => match log_date_days(d) {
            None => None,
            Some(day) => Some((s, day)),
        },
    }
}

/// Reads the service and day from an access log file name.
pub fn parse_access_log_name(name: &str) -> (r: Option<(&'static str, i32)>)
    ensures
        match log_name(name@) {
            None => r is None,
            Some((s, d)) => r matches Some((rs, rd)) && rs@ == s && rd == d,
        },
{
    match split_log_name(name) {
        None => None,
        Some((service, date)) => match parse_log_date(date.as_str()) {
            None => None,
            Some(day) => Some((service, day)),
        },
    }
}

/// Whether a file of the given day may still be kept when logs are kept for
/// `retention_days` days counting today: 0 keeps everything; `n` keeps the
/// days from `today - (n - 1)` on.
pub open spec fn within_retention(day: i32, retention_days: u32, today: i32) -> bool {
    retention_days == 0 || day >= today - (retention_days - 1)
}

/// Whether retention removes the file `name`: an access log of the given
/// service (of any, when `service` is `None`) that is older than the days
/// kept. Other files are never removed.
pub open spec fn removed_by_retention(
    name: Seq<char>,
    service: Option<Seq<char>>,
    retention_days: u32,
    today: i32,
) -> bool {
    match log_name(name) {
        None => false,
        Some((s, day)) => (service matches Some(x) ==> x == s) && !within_retention(
            day,
            retention_days,
            today,
        ),
    }
}

/// Decides whether the retention cleanup deletes the file `name`.
pub fn retention_removes(name: &str, service: Option<&str>, retention_days: u32, today: i32) -> (r:
    bool)
    ensures
        r == removed_by_retention(
            name@,
            match service {
                Some(s) => Some(s@),
                None => None,
            },
            retention_days,
            today,
        ),
{
    if retention_days == 0 {
        return false;
    }
    let (file_service, day) = match parse_access_log_name(name) {
        Some(p) => p,
        None => {
            return false;
        },
    };
    if let Some(expected) = service {
        if !crate::text::same_text(expected, file_service) {
            return false;
        }
    }
    let keep_from: i64 = today as i64 - (retention_days as i64 - 1);
    (day as i64) < keep_from
}

/// Milliseconds since the Unix epoch at which `day` (counted from the first
/// day of the common era, 1970-01-01 being day 719163) begins in UTC.
pub open spec fn utc_day_start_ms(day: int) -> int {
    (day - 719163) * 86400000
}

/// The local start of a day in milliseconds since the epoch (the earliest,
/// where the local clock repeats midnight), from `chrono::Local`; `None`
/// where the day or its midnight does not exist there. Which instant it is
/// depends on the machine's time zone; what holds in every zone is that a
/// local offset is a `chrono::FixedOffset`, which is always less than a day
/// away from UTC, so local midnight lies within a day of UTC midnight.
#[verifier::external_body]
fn local_midnight_ms(day: i32) -> (r: Option<i64>)
    ensures
        r matches Some(t) ==> utc_day_start_ms(day as int) - 86400000 < t < utc_day_start_ms(day as int)
            + 86400000,
{
    chrono::NaiveDate::from_num_days_from_ce_opt(day).and_then(|d| d.and_hms_opt(0, 0, 0)).and_then(
        |t| chrono::TimeZone::from_local_datetime(&chrono::Local, &t).earliest(),
    ).map(|t| t.timestamp_millis())
}

/// Whether a day running from `start` to `next_start` may meet the range
/// `[from_ms, to_ms)`; a day whose bounds are unknown may.
pub open spec fn day_overlap(
    start: Option<i64>,
    next_start: Option<i64>,
    from_ms: Option<i64>,
    to_ms: Option<i64>,
) -> bool {
    match (start, next_start) {
        (Some(s), Some(n)) => (from_ms matches Some(f) ==> n > f) && (to_ms matches Some(t) ==> s
            < t),
        _ => true,
    }
}

/// Decides from a day's local bounds whether it may meet the query's range.
pub fn day_may_overlap(
    start: Option<i64>,
    next_start: Option<i64>,
    from_ms: Option<i64>,
    to_ms: Option<i64>,
) -> (r: bool)
    ensures
        r == day_overlap(start, next_start, from_ms, to_ms),
{
    match (start, next_start) {
        (Some(s), Some(n)) => {
            let after_from = match from_ms {
                Some(f) => n > f,
                None => true,
            };
            let before_to = match to_ms {
                Some(t) => s < t,
                None => true,
            };
            after_from && before_to
        },
        _ => true,
    }
}

/// The query's range certainly covers `day` in every time zone: it starts
/// no later than the day's UTC midnight and ends no earlier than the next
/// day's (an open end covers).
pub open spec fn covers_day(query: &AccessLogQuery, day: i32) -> bool {
    (query.from_ms matches Some(f) ==> f <= utc_day_start_ms(day as int)) && (query.to_ms matches Some(
        t,
    ) ==> t >= utc_day_start_ms(day as int) + 86400000)
}

/// A coarse test of whether a local day's file may hold requests in the
/// query's range `[from_ms, to_ms)`. The day's bounds come from the machine's
/// time zone, which alone can leave them unknown (the day is then kept); in
/// every zone, a range that starts by UTC midnight of the day and ends no
/// earlier than UTC midnight of the next day keeps it, and so does a query
/// without time bounds.
pub fn file_date_may_overlap(day: i32, query: &AccessLogQuery) -> (r: bool)
    ensures
        query.from_ms is None && query.to_ms is None ==> r,
        covers_day(query, day) ==> r,
{
    let start = local_midnight_ms(day);
    let next_start = if day < i32::MAX {
        local_midnight_ms(day + 1)
    } else {
        None
    };
    day_may_overlap(start, next_start, query.from_ms, query.to_ms)
}

/// Whether `name` is an access log of `service`.
pub fn log_of_service(name: &str, service: &str) -> (r: bool)
    ensures
        r == (log_name(name@) matches Some((s, _)) && s == service@),
{
    match parse_access_log_name(name) {
        None => false,
        Some((file_service, _)) => crate::text::same_text(file_service, service),
    }
}

/// Whether the day of the file `name` may meet the query's range: an access
/// log whose local day may overlap it.
pub fn log_day_kept(name: &str, query: &AccessLogQuery) -> (r: bool)
    ensures
        r ==> log_name(name@) is Some,
        log_name(name@) matches Some((_, day)) && covers_day(query, day) ==> r,
{
    match parse_access_log_name(name) {
        None => false,
        Some((_, day)) => file_date_may_overlap(day, query),
    }
}

/// Whether a query scans the file `name` for `service`: an access log of
/// that service whose day may meet the range.
pub fn log_file_selected(name: &str, service: &str, query: &AccessLogQuery) -> (r: bool)
    ensures
        r ==> (log_name(name@) matches Some((s, _)) && s == service@),
        (log_name(name@) matches Some((s, _)) && s == service@) && query.from_ms is None
            && query.to_ms is None ==> r,
{
    match parse_access_log_name(name) {
        None => false,
        Some((file_service, day)) => {
            if !crate::text::same_text(file_service, service) {
                return false;
            }
            file_date_may_overlap(day, query)
        },
    }
}

} // verus!

verus! {

/// `base` joined with the relative or absolute path `part`, by the rules of
/// `Path::join` on Unix: an absolute part replaces the base, and a `/` is
/// put between them unless the base is empty or already ends in one.
pub open spec fn path_join(base: Seq<char>, part: Seq<char>) -> Seq<char> {
    if part.len() > 0 && part[0] == '/' {
        part
    } else if base.len() == 0 || base.last() == '/' {
        base + part
    } else {
        base + "/"@ + part
    }
}

/// `Path::join` on Unix paths held as strings.
pub fn join_path(base: &str, part: &str) -> (r: String)
    ensures
        r@ == path_join(base@, part@),
{
    let p = chars_of(part);
    if p.len() > 0 && p[0] == '/' {
        return owned(part);
    }
    let b = chars_of(base);
    let mut out = owned(base);
    if b.len() > 0 && b[b.len() - 1] != '/' {
        push_char(&mut out, '/');
        assert(out@ == base@ + "/"@) by {
            reveal_strlit("/");
            assert(base@.push('/') =~= base@ + "/"@);
        }
    }
    push_text(&mut out, part);
    out
}

/// The pieces of `s` between `/` separators, after the first.
pub open spec fn later_segments_ignorable(s: Seq<char>) -> bool {
    forall|k: int|
        1 <= k < split_on(s, '/').len() ==> (#[trigger] split_on(s, '/')[k]).len() == 0 || split_on(
            s,
            '/',
        )[k] == "."@
}

/// A workspace id that is one plain path component on Unix: not empty, not
/// absolute, not `.` or `..`, and naming nothing below itself (empty pieces
/// and `.` after it are ignored by `Path::components`).
pub open spec fn valid_profile_id(id: Seq<char>) -> bool {
    let first = split_on(id, '/')[0];
    &&& id.len() > 0
    &&& first.len() > 0
    &&& first != "."@
    &&& first != ".."@
    &&& later_segments_ignorable(id)
}

/// The refusal of a workspace id that is not one plain path component.
pub open spec fn invalid_profile_message() -> Seq<char> {
    "invalid workspace id for log directory"@
}

/// Checks that a workspace id can name its own log directory: one plain
/// path component, so that no absolute path, `..` or nested path escapes the
/// log root.
pub fn validate_profile_id(profile_id: &str) -> (r: Result<(), &'static str>)
    ensures
        r is Ok <==> valid_profile_id(profile_id@),
        r matches Err(e) ==> e@ == invalid_profile_message(),
{
    proof {
        reveal_strlit(".");
        reveal_strlit("..");
    }
    let v = chars_of(profile_id);
    let parts = split_chars(v.as_slice(), '/');
    proof {
        crate::text::lemma_split_nonempty(v@, '/', 0, Seq::empty());
    }
    assert(texts(parts@)[0] == parts@[0]@);
    if v.len() == 0 {
        return Err("invalid workspace id for log directory");
    }
    let first = &parts[0];
    if first.len() == 0 || (first.len() == 1 && first[0] == '.') || (first.len() == 2 && first[0]
        == '.' && first[1] == '.') {
        proof {
            if first@.len() == 1 {
                assert(first@ =~= "."@);
            }
            if first@.len() == 2 {
                assert(first@ =~= ".."@);
            }
        }
        return Err("invalid workspace id for log directory");
    }
    let mut k: usize = 1;
    while k < parts.len()
        invariant
            1 <= k <= parts@.len(),
            texts(parts@) == split_on(v@, '/'),
            v@ == profile_id@,
            forall|j: int|
                1 <= j < k ==> (#[trigger] split_on(v@, '/')[j]).len() == 0 || split_on(v@, '/')[j]
                    == "."@,
        decreases parts.len() - k,
    {
        proof {
            reveal_strlit(".");
        }
        let piece = &parts[k];
        assert(texts(parts@)[k as int] == piece@);
        if !(piece.len() == 0 || (piece.len() == 1 && piece[0] == '.')) {
            proof {
                if piece@.len() == 1 {
                    assert(piece@[0] != "."@[0]);
                }
            }
            return Err("invalid workspace id for log directory");
        }
        proof {
            if piece@.len() == 1 {
                assert(piece@ =~= "."@);
            }
        }
        k = k + 1;
    }
    Ok(())
}

/// The log directory of one workspace under the log root.
pub fn workspace_log_directory(root: &str, profile_id: &str) -> (r: Result<String, &'static str>)
    ensures
        valid_profile_id(profile_id@) ==> (r matches Ok(p) && p@ == path_join(root@, profile_id@)),
        !valid_profile_id(profile_id@) ==> (r matches Err(e) && e@ == invalid_profile_message()),
{
    match validate_profile_id(profile_id) {
        Ok(()) => Ok(join_path(root, profile_id)),
        Err(e) => Err(e),
    }
}

/// The log root (`logs` under the application's configuration directory),
/// or the checked directory of one workspace under it.
pub fn access_log_directory(config_dir: &str, profile_id: Option<&str>) -> (r: Result<
    String,
    &'static str,
>)
    ensures
        match profile_id {
            None => r matches Ok(p) && p@ == path_join(config_dir@, "logs"@),
            Some(id) => if valid_profile_id(id@) {
                r matches Ok(p) && p@ == path_join(path_join(config_dir@, "logs"@), id@)
            } else {
                r matches Err(e) && e@ == invalid_profile_message()
            },
        },
{
    let root = join_path(config_dir, "logs");
    match profile_id {
        None => Ok(root),
        Some(id) => workspace_log_directory(root.as_str(), id),
    }
}

} // verus!

verus! {

/// One log file of a workspace: its name and its lines, in order.
pub struct AccessLogFile {
    pub name: String,
    pub lines: Vec<String>,
}

/// The log files of one workspace directory.
pub struct AccessLogSource {
    pub workspace_id: String,
    pub files: Vec<AccessLogFile>,
}

/// A record the query may return: its time is in range and its status passes
/// the success filter.
pub open spec fn wanted(v: RecordView, query: &AccessLogQuery) -> bool {
    in_range(v.timestamp_ms, query.from_ms, query.to_ms) && success_filter(v.status, query.successful)
}

/// Every record of `s` is wanted.
pub open spec fn all_wanted(s: Seq<RecordView>, query: &AccessLogQuery) -> bool {
    forall|i: int| 0 <= i < s.len() ==> wanted(#[trigger] s[i], query)
}

/// Taking the newest records keeps only records that were there.
proof fn lemma_newest_wanted(r: Seq<RecordView>, v: Seq<RecordView>, limit: nat, query: &AccessLogQuery)
    requires
        newest(r, v, limit),
        all_wanted(v, query),
    ensures
        all_wanted(r, query),
        r.len() <= limit,
{
    broadcast use vstd::seq_lib::group_to_multiset_ensures;

    let s = choose|s: Seq<RecordView>|
        #[trigger] views_ranked(s) && s.to_multiset() == v.to_multiset() && r == s.take(
            if limit < s.len() {
                limit as int
            } else {
                s.len() as int
            },
        );
    assert forall|i: int| 0 <= i < r.len() implies wanted(#[trigger] r[i], query) by {
        assert(r[i] == s[i]);
        assert(s.contains(s[i]));
        assert(s.to_multiset().count(s[i]) > 0);
        assert(v.contains(s[i]));
    }
}

/// The records the first `n` lines of a file give, each numbered by its
/// line; lines that do not parse give none.
pub open spec fn file_records(workspace_id: Seq<char>, service: Seq<char>, lines: Seq<String>, n: int) -> Seq<
    RecordView,
>
    decreases n,
{
    if n <= 0 || n > lines.len() {
        Seq::empty()
    } else {
        let prev = file_records(workspace_id, service, lines, n - 1);
        match parsed_record(workspace_id, service, lines[n - 1]@) {
            Some(v) => prev.push(numbered(v, (n - 1) as u64)),
            None => prev,
        }
    }
}

/// The statistics after counting, in order, the records in the query's
/// time range.
pub open spec fn stats_after(s: AccessLogStats, recs: Seq<RecordView>, query: &AccessLogQuery) -> AccessLogStats
    decreases recs.len(),
{
    if recs.len() == 0 {
        s
    } else {
        let prev = stats_after(s, recs.drop_last(), query);
        let r = recs.last();
        if in_range(r.timestamp_ms, query.from_ms, query.to_ms) {
            counted(prev, r.status, r.response_bytes)
        } else {
            prev
        }
    }
}

/// The statistics ignore the success filter and the limit: two queries with
/// the same time range count the same records the same way.
pub proof fn lemma_stats_ignore_success_filter(
    s: AccessLogStats,
    recs: Seq<RecordView>,
    a: &AccessLogQuery,
    b: &AccessLogQuery,
)
    requires
        a.from_ms == b.from_ms,
        a.to_ms == b.to_ms,
    ensures
        stats_after(s, recs, a) == stats_after(s, recs, b),
    decreases recs.len(),
{
    if recs.len() > 0 {
        lemma_stats_ignore_success_filter(s, recs.drop_last(), a, b);
    }
}

/// The records a query may return, in order.
pub open spec fn wanted_of(recs: Seq<RecordView>, query: &AccessLogQuery) -> Seq<RecordView>
    decreases recs.len(),
{
    if recs.len() == 0 {
        Seq::empty()
    } else {
        let prev = wanted_of(recs.drop_last(), query);
        if wanted(recs.last(), query) {
            prev.push(recs.last())
        } else {
            prev
        }
    }
}

proof fn lemma_stats_concat(s: AccessLogStats, a: Seq<RecordView>, b: Seq<RecordView>, query: &AccessLogQuery)
    ensures
        stats_after(s, a + b, query) == stats_after(stats_after(s, a, query), b, query),
    decreases b.len(),
{
    if b.len() == 0 {
        assert(a + b =~= a);
    } else {
        lemma_stats_concat(s, a, b.drop_last(), query);
        assert((a + b).drop_last() =~= a + b.drop_last());
        assert((a + b).last() == b.last());
    }
}

proof fn lemma_wanted_concat(a: Seq<RecordView>, b: Seq<RecordView>, query: &AccessLogQuery)
    ensures
        wanted_of(a + b, query) == wanted_of(a, query) + wanted_of(b, query),
    decreases b.len(),
{
    if b.len() == 0 {
        assert(a + b =~= a);
        assert(wanted_of(a, query) + wanted_of(b, query) =~= wanted_of(a, query));
    } else {
        lemma_wanted_concat(a, b.drop_last(), query);
        assert((a + b).drop_last() =~= a + b.drop_last());
        assert((a + b).last() == b.last());
        if wanted(b.last(), query) {
            assert(wanted_of(a, query) + wanted_of(b.drop_last(), query).push(b.last())
                =~= (wanted_of(a, query) + wanted_of(b.drop_last(), query)).push(b.last()));
        }
    }
}

/// Every record of a query's merge is wanted.
proof fn lemma_wanted_all(recs: Seq<RecordView>, query: &AccessLogQuery)
    ensures
        all_wanted(wanted_of(recs, query), query),
    decreases recs.len(),
{
    if recs.len() > 0 {
        lemma_wanted_all(recs.drop_last(), query);
        let p = wanted_of(recs.drop_last(), query);
        if wanted(recs.last(), query) {
            assert forall|i: int| 0 <= i < p.push(recs.last()).len() implies wanted(
                #[trigger] p.push(recs.last())[i],
                query,
            ) by {
                if i < p.len() {
                    assert(p.push(recs.last())[i] == p[i]);
                }
            }
        }
    }
}

/// The candidates of a scan: the newest `limit` of the wanted records seen
/// up to some point, followed by every wanted record seen since.
pub open spec fn cut_state(records: Seq<RecordView>, seen: Seq<RecordView>, limit: nat) -> bool {
    exists|earlier: Seq<RecordView>, kept: Seq<RecordView>, later: Seq<RecordView>|
        #[trigger] cut_at(records, seen, limit, earlier, kept, later)
}

/// `kept` is the newest `limit` of `earlier`; the candidates are `kept`
/// followed by `later`, and `earlier` then `later` is everything seen.
pub open spec fn cut_at(
    records: Seq<RecordView>,
    seen: Seq<RecordView>,
    limit: nat,
    earlier: Seq<RecordView>,
    kept: Seq<RecordView>,
    later: Seq<RecordView>,
) -> bool {
    newest(kept, earlier, limit) && seen == earlier + later && records == kept + later
}

proof fn lemma_cut_state_start(limit: nat)
    ensures
        cut_state(Seq::empty(), Seq::empty(), limit),
{
    let e = Seq::<RecordView>::empty();
    assert(views_ranked(e));
    assert(e.take(0) =~= e);
    assert(newest(e, e, limit));
    assert(e + e =~= e);
    assert(cut_at(e, e, limit, e, e, e));
}

proof fn lemma_cut_state_push(records: Seq<RecordView>, seen: Seq<RecordView>, limit: nat, r: RecordView)
    requires
        cut_state(records, seen, limit),
    ensures
        cut_state(records.push(r), seen.push(r), limit),
{
    let (earlier, kept, later) = choose|earlier: Seq<RecordView>, kept: Seq<RecordView>, later: Seq<RecordView>|
        #[trigger] cut_at(records, seen, limit, earlier, kept, later);
    assert(seen.push(r) =~= earlier + later.push(r));
    assert(records.push(r) =~= kept + later.push(r));
    assert(cut_at(records.push(r), seen.push(r), limit, earlier, kept, later.push(r)));
}

proof fn lemma_cut_state_cut(records: Seq<RecordView>, seen: Seq<RecordView>, limit: nat, result: Seq<RecordView>)
    requires
        cut_state(records, seen, limit),
        newest(result, records, limit),
    ensures
        newest(result, seen, limit),
        cut_state(result, seen, limit),
{
    let (earlier, kept, later) = choose|earlier: Seq<RecordView>, kept: Seq<RecordView>, later: Seq<RecordView>|
        #[trigger] cut_at(records, seen, limit, earlier, kept, later);
    merge::lemma_cut_early(earlier, kept, later, result, limit);
    let e = Seq::<RecordView>::empty();
    assert(seen + e =~= seen);
    assert(result + e =~= result);
    assert(newest(result, seen, limit));
    assert(cut_at(result, seen, limit, seen, result, e));
}

/// The newest `n` records are at most `n`, in presentation order.
proof fn lemma_newest_shape(r: Seq<RecordView>, v: Seq<RecordView>, n: nat)
    requires
        newest(r, v, n),
    ensures
        r.len() <= n,
        views_ranked(r),
{
    let s = choose|s: Seq<RecordView>|
        #[trigger] views_ranked(s) && s.to_multiset() == v.to_multiset() && r == s.take(
            if n < s.len() {
                n as int
            } else {
                s.len() as int
            },
        );
    assert forall|i: int, j: int| #![trigger r[i], r[j]] 0 <= i < j < r.len() implies view_precedes(
        r[i],
        r[j],
    ) by {
        assert(r[i] == s[i]);
        assert(r[j] == s[j]);
    }
}

/// Scans the lines of one file for one workspace and service: the
/// statistics count the file's records in range, and the candidates take in
/// its wanted records, cut back as they grow.
fn scan_file(
    result: &mut AccessLogResult,
    workspace_id: &str,
    service: &str,
    file: &AccessLogFile,
    query: &AccessLogQuery,
    limit: usize,
    Ghost(seen): Ghost<Seq<RecordView>>,
)
    requires
        cut_state(record_views(old(result).records@), seen, limit as nat),
        old(result).records@.len() < compact_at(limit),
        limit <= 1000,
    ensures
        final(result).stats == stats_after(
            old(result).stats,
            file_records(workspace_id@, service@, file.lines@, file.lines@.len() as int),
            query,
        ),
        cut_state(
            record_views(final(result).records@),
            seen + wanted_of(
                file_records(workspace_id@, service@, file.lines@, file.lines@.len() as int),
                query,
            ),
            limit as nat,
        ),
        final(result).records@.len() < compact_at(limit),
{
    let ghost stats0 = result.stats;
    let mut i: usize = 0;
    proof {
        assert(seen + Seq::<RecordView>::empty() =~= seen);
    }
    while i < file.lines.len()
        invariant
            i <= file.lines@.len(),
            limit <= 1000,
            result.records@.len() < compact_at(limit),
            result.stats == stats_after(stats0, file_records(workspace_id@, service@, file.lines@, i as int), query),
            cut_state(
                record_views(result.records@),
                seen + wanted_of(file_records(workspace_id@, service@, file.lines@, i as int), query),
                limit as nat,
            ),
        decreases file.lines.len() - i,
    {
        let line = file.lines[i].clone();
        let ghost before = record_views(result.records@);
        let ghost fr = file_records(workspace_id@, service@, file.lines@, i as int);
        let ghost w0 = seen + wanted_of(fr, query);
        result.scan_line(workspace_id, service, line, i as u64, query, limit);
        proof {
            let after = record_views(result.records@);
            let fr1 = file_records(workspace_id@, service@, file.lines@, i + 1);
            assert(file.lines@[i as int]@ == line@);
            match parsed_record(workspace_id@, service@, line@) {
                None => {
                    assert(fr1 == fr);
                },
                Some(v) => {
                    let rec = numbered(v, i as u64);
                    assert(fr1 == fr.push(rec));
                    assert(fr1.drop_last() =~= fr);
                    let pushed = before.push(rec);
                    if wanted(rec, query) {
                        assert(wanted_of(fr1, query) == wanted_of(fr, query).push(rec));
                        assert(seen + wanted_of(fr1, query) =~= w0.push(rec));
                        lemma_cut_state_push(before, w0, limit as nat, rec);
                        if pushed.len() >= compact_at(limit) {
                            lemma_cut_state_cut(pushed, w0.push(rec), limit as nat, after);
                            lemma_newest_shape(after, pushed, limit as nat);
                        } else {
                            assert(after == pushed);
                        }
                    } else {
                        assert(wanted_of(fr1, query) == wanted_of(fr, query));
                    }
                },
            }
        }
        i = i + 1;
    }
}

/// A scanned file, by the index of its workspace, of its service and of the
/// file in the workspace's directory.
pub type Pick = (int, int, int);

/// The records of one picked file, numbered by line.
pub open spec fn pick_records(sources: Seq<AccessLogSource>, services: Seq<Seq<char>>, p: Pick) -> Seq<
    RecordView,
> {
    let source = sources[p.0];
    let file = source.files@[p.2];
    file_records(source.workspace_id@, services[p.1], file.lines@, file.lines@.len() as int)
}

/// The records of the picked files, file after file.
pub open spec fn picked(sources: Seq<AccessLogSource>, services: Seq<Seq<char>>, picks: Seq<Pick>) -> Seq<
    RecordView,
>
    decreases picks.len(),
{
    if picks.len() == 0 {
        Seq::empty()
    } else {
        picked(sources, services, picks.drop_last()) + pick_records(sources, services, picks.last())
    }
}

/// Scan order: by workspace, then service, then file.
pub open spec fn lex_lt(a: Pick, b: Pick) -> bool {
    a.0 < b.0 || (a.0 == b.0 && (a.1 < b.1 || (a.1 == b.1 && a.2 < b.2)))
}

/// `p` names a file of the sources and a service of the query.
pub open spec fn in_bounds(sources: Seq<AccessLogSource>, services: Seq<Seq<char>>, p: Pick) -> bool {
    0 <= p.0 < sources.len() && 0 <= p.1 < services.len() && 0 <= p.2 < sources[p.0].files@.len()
}

/// The file `p` names is an access log of the service `p` names.
pub open spec fn file_matches(sources: Seq<AccessLogSource>, services: Seq<Seq<char>>, p: Pick) -> bool {
    log_name(sources[p.0].files@[p.2].name@) matches Some((s, _)) && s == services[p.1]
}

/// Whether the day of the file `p` names was kept: `kept[w][f]` for
/// workspace `w` and file `f`, false where `kept` has no entry.
pub open spec fn kept_at(kept: Seq<Seq<bool>>, p: Pick) -> bool {
    0 <= p.0 < kept.len() && 0 <= p.2 < kept[p.0].len() && kept[p.0][p.2]
}

/// The file `p` names is an access log of the service `p` names whose day
/// was kept.
pub open spec fn chosen(sources: Seq<AccessLogSource>, services: Seq<Seq<char>>, kept: Seq<Seq<bool>>, p: Pick) -> bool {
    file_matches(sources, services, p) && kept_at(kept, p)
}

/// The kept days, per workspace and file.
pub open spec fn kept_view(kept: Seq<Vec<bool>>) -> Seq<Seq<bool>> {
    kept.map_values(|v: Vec<bool>| v@)
}

/// The files a merge scans: exactly the access logs of its services whose
/// day was kept, each once, in scan order.
pub open spec fn valid_picks(
    sources: Seq<AccessLogSource>,
    services: Seq<Seq<char>>,
    kept: Seq<Seq<bool>>,
    picks: Seq<Pick>,
) -> bool {
    &&& forall|i: int|
        0 <= i < picks.len() ==> in_bounds(sources, services, #[trigger] picks[i]) && chosen(sources, services, kept, picks[i],
        )
    &&& forall|i: int, j: int| 0 <= i < j < picks.len() ==> lex_lt(#[trigger] picks[i], #[trigger] picks[j])
    &&& forall|p: Pick|
        in_bounds(sources, services, p) && #[trigger] chosen(sources, services, kept, p) ==> picks.contains(p)
}

/// `res` answers `query` over `sources` with the days `kept`: over the
/// files that holds, the statistics count every record in range, and the
/// records are the newest wanted ones, at most the limit, in presentation
/// order.
pub open spec fn answers(
    sources: Seq<AccessLogSource>,
    query: &AccessLogQuery,
    kept: Seq<Seq<bool>>,
    res: AccessLogResult,
) -> bool {
    match services_of(crate::monitor::model::opt_view(query.service)) {
        None => false,
        Some(services) => exists|picks: Seq<Pick>|
            #[trigger] valid_picks(sources, services, kept, picks) && res.stats == stats_after(
                AccessLogStats::zero(),
                picked(sources, services, picks),
                query,
            ) && newest(
                record_views(res.records@),
                wanted_of(picked(sources, services, picks), query),
                limit_of(query.limit),
            ),
    }
}

/// The scan position moves past file `f` of service `k` of workspace `w`.
proof fn lemma_scan_step(
    sources: Seq<AccessLogSource>,
    services: Seq<Seq<char>>,
    kept: Seq<Seq<bool>>,
    picks: Seq<Pick>,
    next: Seq<Pick>,
    w: int,
    k: int,
    f: int,
    taken: bool,
)
    requires
        in_bounds(sources, services, (w, k, f)),
        taken ==> chosen(sources, services, kept, (w, k, f)),
        !taken ==> !chosen(sources, services, kept, (w, k, f)),
        next == (if taken {
            picks.push((w, k, f))
        } else {
            picks
        }),
        forall|i: int|
            0 <= i < picks.len() ==> in_bounds(sources, services, #[trigger] picks[i]) && chosen(sources, services, kept, picks[i],
            ) && lex_lt(picks[i], (w, k, f)),
        forall|i: int, j: int| 0 <= i < j < picks.len() ==> lex_lt(#[trigger] picks[i], #[trigger] picks[j]),
        forall|p: Pick|
            in_bounds(sources, services, p) && #[trigger] chosen(sources, services, kept, p) && lex_lt(
                p,
                (w, k, f),
            ) ==> picks.contains(p),
    ensures
        forall|i: int|
            0 <= i < next.len() ==> in_bounds(sources, services, #[trigger] next[i]) && chosen(sources, services, kept, next[i],
            ) && lex_lt(next[i], (w, k, f + 1)),
        forall|i: int, j: int| 0 <= i < j < next.len() ==> lex_lt(#[trigger] next[i], #[trigger] next[j]),
        forall|p: Pick|
            in_bounds(sources, services, p) && #[trigger] chosen(sources, services, kept, p) && lex_lt(
                p,
                (w, k, f + 1),
            ) ==> next.contains(p),
{
    if taken {
        assert forall|i: int| 0 <= i < next.len() implies in_bounds(sources, services, #[trigger] next[i])
            && chosen(sources, services, kept, next[i]) && lex_lt(next[i], (w, k, f + 1)) by {
            if i < picks.len() {
                assert(next[i] == picks[i]);
            }
        }
        assert forall|i: int, j: int| 0 <= i < j < next.len() implies lex_lt(
            #[trigger] next[i],
            #[trigger] next[j],
        ) by {
            assert(next[i] == picks[i]);
            if j < picks.len() {
                assert(next[j] == picks[j]);
            }
        }
    }
    {
        assert forall|p: Pick|
            in_bounds(sources, services, p) && #[trigger] chosen(sources, services, kept, p) && lex_lt(
                p,
                (w, k, f + 1),
            ) implies next.contains(p) by {
            if lex_lt(p, (w, k, f)) {
                let i = choose|i: int| 0 <= i < picks.len() && picks[i] == p;
                if taken {
                    assert(next[i] == p);
                }
            } else {
                assert(p == (w, k, f));
                assert(next[next.len() - 1] == p);
            }
        }
    }
}

/// Merges the logs of several workspaces: each workspace's `mcp` and
/// `actions` files as the query's service asks, of the days `kept` (per
/// workspace and file), one file at a time. The statistics count every
/// parsed request in the time range; the records are the newest of those
/// that also pass the success filter, at most the query's limit, in
/// presentation order. An unknown service is refused.
pub fn merge_access_logs(
    sources: &Vec<AccessLogSource>,
    query: &AccessLogQuery,
    kept: &Vec<Vec<bool>>,
) -> (r: Result<AccessLogResult, String>)
    ensures
        services_of(crate::monitor::model::opt_view(query.service)) is None <==> r is Err,
        r matches Err(m) ==> (query.service matches Some(s) && m@ == unknown_service_message(s@)),
        r matches Ok(res) ==> answers(sources@, query, kept_view(kept@), res),
        r matches Ok(res) ==> res.records@.len() <= limit_of(query.limit) && views_ranked(
            record_views(res.records@),
        ) && all_wanted(record_views(res.records@), query),
{
    let services = match access_services(&query.service) {
        Ok(s) => s,
        Err(m) => {
            return Err(m);
        },
    };
    let ghost sv = services@.map_values(|n: &'static str| n@);
    let ghost src = sources@;
    let ghost kv = kept_view(kept@);
    let limit = record_limit(query.limit);
    let mut result = AccessLogResult::default();
    let ghost mut picks: Seq<Pick> = Seq::empty();
    proof {
        assert(record_views(result.records@) =~= Seq::<RecordView>::empty());
        lemma_cut_state_start(limit as nat);
        assert(picked(src, sv, picks) =~= Seq::<RecordView>::empty());
    }
    let mut w: usize = 0;
    while w < sources.len()
        invariant
            src == sources@,
            sv == services@.map_values(|n: &'static str| n@),
            kv == kept_view(kept@),
            result.stats == stats_after(AccessLogStats::zero(), picked(src, sv, picks), query),
            cut_state(record_views(result.records@), wanted_of(picked(src, sv, picks), query), limit as nat),
            result.records@.len() < compact_at(limit),
            w <= sources@.len(),
            limit <= 1000,
            forall|i: int|
                0 <= i < picks.len() ==> in_bounds(src, sv, #[trigger] picks[i]) && chosen(src, sv, kv, picks[i],
                ) && lex_lt(picks[i], (w as int, 0, 0)),
            forall|i: int, j: int| 0 <= i < j < picks.len() ==> lex_lt(#[trigger] picks[i], #[trigger] picks[j]),
            forall|p: Pick|
                in_bounds(src, sv, p) && #[trigger] chosen(src, sv, kv, p) && lex_lt(p, (w as int, 0, 0))
                    ==> picks.contains(p),
        decreases sources.len() - w,
    {
        let source = &sources[w];
        let mut k: usize = 0;
        while k < services.len()
            invariant
                src == sources@,
                source == src[w as int],
                w < src.len(),
                sv == services@.map_values(|n: &'static str| n@),
                kv == kept_view(kept@),
                    result.stats == stats_after(AccessLogStats::zero(), picked(src, sv, picks), query),
                cut_state(record_views(result.records@), wanted_of(picked(src, sv, picks), query), limit as nat),
                result.records@.len() < compact_at(limit),
                k <= services@.len(),
                limit <= 1000,
                forall|i: int|
                    0 <= i < picks.len() ==> in_bounds(src, sv, #[trigger] picks[i]) && chosen(src, sv, kv, picks[i],
                    ) && lex_lt(picks[i], (w as int, k as int, 0)),
                forall|i: int, j: int| 0 <= i < j < picks.len() ==> lex_lt(#[trigger] picks[i], #[trigger] picks[j]),
                forall|p: Pick|
                    in_bounds(src, sv, p) && #[trigger] chosen(src, sv, kv, p) && lex_lt(
                        p,
                        (w as int, k as int, 0),
                    ) ==> picks.contains(p),
            decreases services.len() - k,
        {
            let service = services[k];
            let mut f: usize = 0;
            while f < source.files.len()
                invariant
                    src == sources@,
                    source == src[w as int],
                    w < src.len(),
                    k < services@.len(),
                    service == services@[k as int],
                    sv == services@.map_values(|n: &'static str| n@),
                    kv == kept_view(kept@),
                            result.stats == stats_after(AccessLogStats::zero(), picked(src, sv, picks), query),
                    cut_state(
                        record_views(result.records@),
                        wanted_of(picked(src, sv, picks), query),
                        limit as nat,
                    ),
                    result.records@.len() < compact_at(limit),
                    f <= source.files@.len(),
                    limit <= 1000,
                    forall|i: int|
                        0 <= i < picks.len() ==> in_bounds(src, sv, #[trigger] picks[i]) && chosen(src, sv, kv, picks[i],
                        ) && lex_lt(picks[i], (w as int, k as int, f as int)),
                    forall|i: int, j: int|
                        0 <= i < j < picks.len() ==> lex_lt(#[trigger] picks[i], #[trigger] picks[j]),
                    forall|p: Pick|
                        in_bounds(src, sv, p) && #[trigger] chosen(src, sv, kv, p) && lex_lt(
                            p,
                            (w as int, k as int, f as int),
                        ) ==> picks.contains(p),
                decreases source.files.len() - f,
            {
                let file = &source.files[f];
                let ghost here: Pick = (w as int, k as int, f as int);
                proof {
                    assert(sv[k as int] == service@);
                    assert(in_bounds(src, sv, here));
                }
                let day_kept = w < kept.len() && f < kept[w].len() && kept[w][f];
                let taken = day_kept && log_of_service(file.name.as_str(), service);
                proof {
                    if w < kept@.len() {
                        assert(kv[w as int] == kept@[w as int]@);
                    }
                }
                if taken {
                    let ghost all = picked(src, sv, picks);
                    let ghost fr = file_records(source.workspace_id@, service@, file.lines@, file.lines@.len() as int);
                    scan_file(
                        &mut result,
                        source.workspace_id.as_str(),
                        service,
                        file,
                        query,
                        limit,
                        Ghost(wanted_of(all, query)),
                    );
                    proof {
                        let next = picks.push(here);
                        assert(next.drop_last() =~= picks);
                        assert(pick_records(src, sv, here) == fr);
                        assert(picked(src, sv, next) == all + fr);
                        lemma_stats_concat(AccessLogStats::zero(), all, fr, query);
                        lemma_wanted_concat(all, fr, query);
                    }
                }
                proof {
                    let next = if taken {
                        picks.push(here)
                    } else {
                        picks
                    };
                    lemma_scan_step(src, sv, kv, picks, next, w as int, k as int, f as int, taken);
                    picks = next;
                }
                f = f + 1;
            }
            proof {
                assert forall|i: int| 0 <= i < picks.len() implies lex_lt(
                    #[trigger] picks[i],
                    (w as int, k + 1, 0),
                ) by {
                    assert(in_bounds(src, sv, picks[i]));
                }
            }
            k = k + 1;
        }
        w = w + 1;
    }
    let ghost before = record_views(result.records@);
    let ghost all = picked(src, sv, picks);
    trim_access_records(&mut result.records, limit);
    proof {
        let after = record_views(result.records@);
        lemma_cut_state_cut(before, wanted_of(all, query), limit as nat, after);
        lemma_newest_shape(after, wanted_of(all, query), limit as nat);
        lemma_wanted_all(all, query);
        lemma_newest_wanted(after, wanted_of(all, query), limit as nat, query);
        assert(valid_picks(src, sv, kv, picks));
    }
    Ok(result)
}

/// The days a query keeps of the files of `sources`: an entry per
/// workspace and file, true only for access logs, true for every access log
/// whose day the range certainly covers (so for every one when the query
/// has no time bounds).
pub open spec fn day_selection(sources: Seq<AccessLogSource>, query: &AccessLogQuery, kept: Seq<Seq<bool>>) -> bool {
    &&& kept.len() == sources.len()
    &&& forall|w: int| 0 <= w < sources.len() ==> (#[trigger] kept[w]).len() == sources[w].files@.len()
    &&& forall|w: int, f: int|
        0 <= w < sources.len() && 0 <= f < sources[w].files@.len() ==> {
            let name = sources[w].files@[f].name@;
            &&& (#[trigger] kept[w][f]) ==> log_name(name) is Some
            &&& (log_name(name) matches Some((_, day)) && covers_day(query, day)) ==> kept[w][f]
        }
}

/// Merges the logs of several workspaces as a query asks: each file whose
/// local day may meet the range is scanned (`log_day_kept`), then merged by
/// [`merge_access_logs`]. Which days are kept under time bounds depends on
/// the machine's time zone; every day the range covers in every zone is.
pub fn query_access_logs(sources: &Vec<AccessLogSource>, query: &AccessLogQuery) -> (r: Result<
    AccessLogResult,
    String,
>)
    ensures
        services_of(crate::monitor::model::opt_view(query.service)) is None <==> r is Err,
        r matches Err(m) ==> (query.service matches Some(s) && m@ == unknown_service_message(s@)),
        r matches Ok(res) ==> exists|kept: Seq<Seq<bool>>|
            #[trigger] day_selection(sources@, query, kept) && answers(sources@, query, kept, res),
        r matches Ok(res) ==> res.records@.len() <= limit_of(query.limit) && views_ranked(
            record_views(res.records@),
        ) && all_wanted(record_views(res.records@), query),
{
    let mut kept: Vec<Vec<bool>> = Vec::new();
    let mut w: usize = 0;
    while w < sources.len()
        invariant
            w <= sources@.len(),
            kept@.len() == w,
            forall|v: int| 0 <= v < w ==> (#[trigger] kept@[v])@.len() == sources@[v].files@.len(),
            forall|v: int, f: int|
                0 <= v < w && 0 <= f < sources@[v].files@.len() ==> {
                    let name = sources@[v].files@[f].name@;
                    &&& (#[trigger] kept@[v]@[f]) ==> log_name(name) is Some
                    &&& (log_name(name) matches Some((_, day)) && covers_day(query, day)) ==> kept@[v]@[f]
                },
        decreases sources.len() - w,
    {
        let files = &sources[w].files;
        let mut row: Vec<bool> = Vec::new();
        let mut f: usize = 0;
        while f < files.len()
            invariant
                f <= files@.len(),
                files == sources@[w as int].files,
                row@.len() == f,
                forall|g: int|
                    0 <= g < f ==> {
                        let name = files@[g].name@;
                        &&& (#[trigger] row@[g]) ==> log_name(name) is Some
                        &&& (log_name(name) matches Some((_, day)) && covers_day(query, day)) ==> row@[g]
                    },
            decreases files.len() - f,
        {
            let keep = log_day_kept(files[f].name.as_str(), query);
            row.push(keep);
            f = f + 1;
        }
        kept.push(row);
        w = w + 1;
    }
    let r = merge_access_logs(sources, query, &kept);
    proof {
        let kv = kept_view(kept@);
        assert forall|v: int| 0 <= v < sources@.len() implies (#[trigger] kv[v]).len() == sources@[v].files@.len() by {
            assert(kv[v] == kept@[v]@);
        }
        assert forall|v: int, f: int|
            0 <= v < sources@.len() && 0 <= f < sources@[v].files@.len() implies {
                let name = sources@[v].files@[f].name@;
                &&& (#[trigger] kv[v][f]) ==> log_name(name) is Some
                &&& (log_name(name) matches Some((_, day)) && covers_day(query, day)) ==> kv[v][f]
            } by {
            assert(kv[v] == kept@[v]@);
            assert(kept@[v]@[f] == kv[v][f]);
        }
        assert(day_selection(sources@, query, kv));
    }
    r
}

} // verus!

verus! {

/// The write side of one workspace's log for one service: which day's file
/// is open, and when and with which retention the last cleanup ran. Days
/// count from the first day of the common era.
#[derive(Clone, Copy, PartialEq, Eq, Structural, Debug)]
pub struct MaintenanceState {
    pub last_cleanup_date: Option<i32>,
    pub last_retention_days: Option<u32>,
    pub open_file_date: Option<i32>,
    pub file_open: bool,
}

impl MaintenanceState {
    /// Nothing open, no cleanup run yet.
    pub fn new() -> (r: MaintenanceState)
        ensures
            r.last_cleanup_date is None && r.last_retention_days is None && r.open_file_date is None
                && !r.file_open,
    {
        MaintenanceState {
            last_cleanup_date: None,
            last_retention_days: None,
            open_file_date: None,
            file_open: false,
        }
    }
}

/// What appending a line on a given day requires, in this order: close the
/// previous day's file, run the retention cleanup, open the day's file.
#[derive(Clone, Copy, PartialEq, Eq, Structural, Debug)]
pub struct AppendPlan {
    pub close_file: bool,
    pub run_cleanup: bool,
    pub open_file: bool,
}

/// The steps an append on `date` under `retention_days` needs from `state`.
pub open spec fn append_plan(state: MaintenanceState, date: i32, retention_days: u32) -> AppendPlan {
    let close_file = state.open_file_date != Some(date);
    AppendPlan {
        close_file,
        run_cleanup: state.last_cleanup_date != Some(date) || state.last_retention_days != Some(
            retention_days,
        ),
        open_file: close_file || !state.file_open,
    }
}

/// The state after a successful append on `date` under `retention_days`.
pub open spec fn appended(date: i32, retention_days: u32) -> MaintenanceState {
    MaintenanceState {
        last_cleanup_date: Some(date),
        last_retention_days: Some(retention_days),
        open_file_date: Some(date),
        file_open: true,
    }
}

/// Within one day and one retention setting, later appends reuse the open
/// file and run no cleanup; the first append of a new day closes the old
/// file, cleans up and opens the new day's file; a retention change on the
/// same day cleans up again but keeps the file.
pub proof fn lemma_append_rotation(date: i32, retention_days: u32, next_date: i32, next_retention: u32)
    ensures
        append_plan(appended(date, retention_days), date, retention_days) == (AppendPlan {
            close_file: false,
            run_cleanup: false,
            open_file: false,
        }),
        next_date != date ==> append_plan(appended(date, retention_days), next_date, next_retention)
            == (AppendPlan { close_file: true, run_cleanup: true, open_file: true }),
        next_retention != retention_days ==> append_plan(
            appended(date, retention_days),
            date,
            next_retention,
        ) == (AppendPlan { close_file: false, run_cleanup: true, open_file: false }),
{
}

/// Plans an append for `date` under `retention_days` and moves the state
/// as if every step succeeds. A new day closes the old file first, so no
/// request is written into the previous day's file; a new day or a changed
/// retention runs the cleanup once (its failure does not stop the write);
/// the day's file is opened when none is open.
pub fn plan_append(state: &mut MaintenanceState, date: i32, retention_days: u32) -> (r: AppendPlan)
    ensures
        r == append_plan(*old(state), date, retention_days),
        *final(state) == appended(date, retention_days),
{
    let close_file = state.open_file_date != Some(date);
    if close_file {
        state.file_open = false;
        state.open_file_date = None;
    }
    let run_cleanup = state.last_cleanup_date != Some(date) || state.last_retention_days != Some(
        retention_days,
    );
    if run_cleanup {
        state.last_cleanup_date = Some(date);
        state.last_retention_days = Some(retention_days);
    }
    let open_file = state.open_file_date != Some(date) || !state.file_open;
    if open_file {
        state.file_open = true;
        state.open_file_date = Some(date);
    }
    AppendPlan { close_file, run_cleanup, open_file }
}

/// The response size a line records: the `Content-Length` header when it
/// reads as a `u64`, else the body's exact size hint, else unknown.
pub fn response_size(content_length: Option<&str>, exact_size_hint: Option<u64>) -> (r: Option<u64>)
    ensures
        r == match content_length {
            Some(v) => match parse_unsigned(v@, u64::MAX as nat) {
                Some(n) => Some(n as u64),
                None => exact_size_hint,
            },
            None => exact_size_hint,
        },
{
    if let Some(v) = content_length {
        let c = chars_of(v);
        if let Some(n) = parse_u64(c.as_slice()) {
            return Some(n);
        }
    }
    exact_size_hint
}

/// A day as `chrono` writes it with `%Y-%m-%d`, `None` for a day number
/// outside `chrono`'s range.
pub uninterp spec fn log_date_text(day: i32) -> Option<Seq<char>>;

/// `chrono::NaiveDate::from_num_days_from_ce_opt`, then `format("%Y-%m-%d")`;
/// the text is named [`log_date_text`].
#[verifier::external_body]
fn format_log_date(day: i32) -> (r: Option<String>)
    ensures
        crate::monitor::model::opt_view(r) == log_date_text(day),
{
    chrono::NaiveDate::from_num_days_from_ce_opt(day).map(|d| d.format("%Y-%m-%d").to_string())
}

/// The file a service's requests of a day are written to:
/// `{service}-access-{date}.log`.
pub fn access_log_file_name(service: &str, day: i32) -> (r: Option<String>)
    ensures
        match log_date_text(day) {
            Some(d) => r matches Some(n) && n@ == service@ + "-access-"@ + d + ".log"@,
            None => r is None,
        },
{
    match format_log_date(day) {
        Some(d) => {
            let mut name = owned(service);
            push_text(&mut name, "-access-");
            push_text(&mut name, d.as_str());
            push_text(&mut name, ".log");
            Some(name)
        },
        None => None,
    }
}

} // verus!

verus! {

/// Escaped text is line-safe; without space bytes it holds no space; it is
/// empty only for empty input.
proof fn lemma_escape_chars(x: Seq<u8>)
    ensures
        forall|k: int| 0 <= k < escape_bytes(x).len() ==> line_safe(#[trigger] escape_bytes(x)[k]),
        (forall|k: int| 0 <= k < x.len() ==> x[k] != 0x20) ==> forall|k: int|
            0 <= k < escape_bytes(x).len() ==> #[trigger] escape_bytes(x)[k] != ' ',
        x.len() > 0 ==> escape_bytes(x).len() > 0,
    decreases x.len(),
{
    lemma_escape_line_safe(x);
    if x.len() > 0 {
        lemma_escape_chars(x.drop_last());
        let a = escape_bytes(x.drop_last());
        let b = escape_byte(x.last());
        if forall|k: int| 0 <= k < x.len() ==> x[k] != 0x20 {
            assert forall|k: int| 0 <= k < x.drop_last().len() implies x.drop_last()[k] != 0x20 by {
                assert(x.drop_last()[k] == x[k]);
            }
            assert(x[x.len() - 1] != 0x20);
            assert forall|k: int| 0 <= k < escape_bytes(x).len() implies #[trigger] escape_bytes(x)[k]
                != ' ' by {
                if k < a.len() {
                    assert(escape_bytes(x)[k] == a[k]);
                } else {
                    assert(escape_bytes(x)[k] == b[k - a.len()]);
                    if kept_byte(x.last()) {
                        assert(b[0] == x.last() as char);
                    }
                }
            }
        }
    }
}

/// A printable ASCII character other than the space is not whitespace.
proof fn lemma_safe_not_ws(c: char)
    requires
        line_safe(c),
        c != ' ',
    ensures
        !is_ws(c),
        c != '"',
{
}

/// No character of `s` is whitespace or a double quote.
pub open spec fn plain_word(s: Seq<char>) -> bool {
    forall|k: int| 0 <= k < s.len() ==> !is_ws(#[trigger] s[k]) && s[k] != '"'
}

/// No character of `s` is a double quote.
pub open spec fn quote_free(s: Seq<char>) -> bool {
    forall|k: int| 0 <= k < s.len() ==> #[trigger] s[k] != '"'
}

proof fn lemma_escaped_word(x: Seq<u8>)
    requires
        forall|k: int| 0 <= k < x.len() ==> x[k] != 0x20,
    ensures
        plain_word(escape_bytes(x)),
        x.len() > 0 ==> escape_bytes(x).len() > 0,
{
    lemma_escape_chars(x);
    let e = escape_bytes(x);
    assert forall|k: int| 0 <= k < e.len() implies !is_ws(#[trigger] e[k]) && e[k] != '"' by {
        lemma_safe_not_ws(e[k]);
    }
}

proof fn lemma_escaped_quote_free(x: Seq<u8>)
    ensures
        quote_free(escape_bytes(x)),
{
    lemma_escape_chars(x);
}

proof fn lemma_decimal_word(n: nat)
    ensures
        plain_word(decimal(n)),
        decimal(n).len() > 0,
        parse_unsigned(decimal(n), n) == Some(n),
{
    crate::text::lemma_decimal_digits(n);
    let d = decimal(n);
    assert forall|k: int| 0 <= k < d.len() implies !is_ws(#[trigger] d[k]) && d[k] != '"' by {
        assert(crate::text::is_digit(d[k]));
    }
}

/// Splitting a piece that holds no quote, then the rest.
proof fn lemma_split_piece(a: Seq<char>, b: Seq<char>)
    requires
        quote_free(a),
    ensures
        split_on(a + seq!['"'] + b, '"') == seq![a] + split_on(b, '"'),
{
    crate::text::lemma_split_cons(a, '"', b);
}

/// The words of `a b c` for three plain words.
proof fn lemma_three_words(a: Seq<char>, b: Seq<char>, c: Seq<char>)
    requires
        plain_word(a),
        plain_word(b),
        plain_word(c),
        a.len() > 0,
        b.len() > 0,
        c.len() > 0,
    ensures
        words(a + " "@ + b + " "@ + c) == seq![a, b, c],
{
    reveal_strlit(" ");
    let s = a + " "@ + b + " "@ + c;
    let i1 = a.len() as int;
    let i2 = i1 + 1 + b.len();
    assert(s.subrange(0, i1) =~= a);
    assert(s.subrange(i1 + 1, i2) =~= b);
    assert(s.subrange(i2 + 1, s.len() as int) =~= c);
    assert forall|k: int| 0 <= k < i1 implies !is_ws(#[trigger] s[k]) by {
        assert(s[k] == a[k]);
    }
    assert forall|k: int| i1 + 1 <= k < i2 implies !is_ws(#[trigger] s[k]) by {
        assert(s[k] == b[k - i1 - 1]);
    }
    assert forall|k: int| i2 + 1 <= k < s.len() implies !is_ws(#[trigger] s[k]) by {
        assert(s[k] == c[k - i2 - 1]);
    }
    assert(s[i1] == ' ');
    assert(s[i2] == ' ');
    crate::text::lemma_words_run(s, 0, i1, Seq::empty(), false);
    assert(Seq::<char>::empty() + a =~= a);
    crate::text::lemma_words_break(s, i1, a);
    crate::text::lemma_words_run(s, i1 + 1, i2, Seq::empty(), false);
    assert(Seq::<char>::empty() + b =~= b);
    crate::text::lemma_words_break(s, i2, b);
    crate::text::lemma_words_run(s, i2 + 1, s.len() as int, Seq::empty(), false);
    assert(Seq::<char>::empty() + c =~= c);
    crate::text::lemma_words_end(s, c);
    assert(words(s) =~= seq![a, b, c]);
}

/// The words of `a b` for two plain words.
proof fn lemma_two_words(a: Seq<char>, b: Seq<char>)
    requires
        plain_word(a),
        plain_word(b),
        a.len() > 0,
        b.len() > 0,
    ensures
        words(a + " "@ + b) == seq![a, b],
{
    reveal_strlit(" ");
    let s = a + " "@ + b;
    let i1 = a.len() as int;
    assert(s.subrange(0, i1) =~= a);
    assert(s.subrange(i1 + 1, s.len() as int) =~= b);
    assert forall|k: int| 0 <= k < i1 implies !is_ws(#[trigger] s[k]) by {
        assert(s[k] == a[k]);
    }
    assert forall|k: int| i1 + 1 <= k < s.len() implies !is_ws(#[trigger] s[k]) by {
        assert(s[k] == b[k - i1 - 1]);
    }
    assert(s[i1] == ' ');
    crate::text::lemma_words_run(s, 0, i1, Seq::empty(), false);
    assert(Seq::<char>::empty() + a =~= a);
    crate::text::lemma_words_break(s, i1, a);
    crate::text::lemma_words_run(s, i1 + 1, s.len() as int, Seq::empty(), false);
    assert(Seq::<char>::empty() + b =~= b);
    crate::text::lemma_words_end(s, b);
    assert(words(s) =~= seq![a, b]);
}

/// The time field of the prefix `ip - - [ts] `.
proof fn lemma_prefix_stamp(ip: Seq<char>, ts: Seq<char>)
    requires
        plain_word(ip),
        ip.len() > 0,
    ensures
        trim_spec(ip + " - - ["@ + ts + "] "@).len() > 0,
        stamp_of(trim_spec(ip + " - - ["@ + ts + "] "@)) == "- - ["@ + ts + "]"@,
{
    reveal_strlit(" - - [");
    reveal_strlit("] ");
    reveal_strlit("- - [");
    reveal_strlit("]");
    let p0 = ip + " - - ["@ + ts + "] "@;
    assert(p0[0] == ip[0]);
    crate::text::lemma_trim_start_at(p0, 0);
    assert(p0.subrange(0, p0.len() as int) =~= p0);
    let n = p0.len() - 1;
    assert(p0[n] == ' ');
    assert(p0[n - 1] == ']');
    crate::text::lemma_trim_end_at(p0, n);
    let prefix = p0.subrange(0, n);
    assert(prefix =~= ip + " - - ["@ + ts + "]"@);
    let m = ip.len() as int;
    assert forall|k: int| 0 <= k < m implies !is_ws(#[trigger] prefix[k]) by {
        assert(prefix[k] == ip[k]);
    }
    assert(prefix[m] == ' ');
    crate::text::lemma_word_run_at(prefix, 0, m);
    let after = prefix.subrange(m, prefix.len() as int);
    assert(after =~= " - - ["@ + ts + "]"@);
    assert(after[0] == ' ');
    assert(after[1] == '-');
    crate::text::lemma_trim_start_at(after, 1);
    let t = after.subrange(1, after.len() as int);
    assert(t =~= "- - ["@ + ts + "]"@);
    assert(t[t.len() - 1] == ']');
    crate::text::lemma_trim_end_at(t, t.len() as int);
    assert(t.subrange(0, t.len() as int) =~= t);
}

/// The response field ` status size ` trimmed.
proof fn lemma_response_trim(a: Seq<char>, b: Seq<char>)
    requires
        plain_word(a),
        plain_word(b),
        a.len() > 0,
        b.len() > 0,
    ensures
        trim_spec(" "@ + a + " "@ + b + " "@) == a + " "@ + b,
{
    reveal_strlit(" ");
    let s = " "@ + a + " "@ + b + " "@;
    assert(s[0] == ' ');
    assert(s[1] == a[0]);
    crate::text::lemma_trim_start_at(s, 1);
    let t = s.subrange(1, s.len() as int);
    assert(t =~= a + " "@ + b + " "@);
    let n = t.len() - 1;
    assert(t[n] == ' ');
    assert(t[n - 1] == b[b.len() - 1]);
    crate::text::lemma_trim_end_at(t, n);
    assert(t.subrange(0, n) =~= a + " "@ + b);
}

} // verus!

verus! {

/// The quote-separated pieces of a combined line.
pub open spec fn line_pieces(
    ip: Seq<char>,
    timestamp: Seq<char>,
    m: Seq<char>,
    u: Seq<char>,
    version: Seq<char>,
    ds: Seq<char>,
    db: Seq<char>,
    r: Seq<char>,
    a: Seq<char>,
) -> Seq<char> {
    let q = seq!['"'];
    (ip + " - - ["@ + timestamp + "] "@) + q + ((m + " "@ + u + " "@ + version) + q + ((" "@ + ds
        + " "@ + db + " "@) + q + (r + q + (" "@ + q + (a + q + Seq::<char>::empty())))))
}

#[verifier::spinoff_prover]
#[verifier::rlimit(80)]
proof fn lemma_line_shape(
    client_ip: Seq<u8>,
    timestamp: Seq<char>,
    method: Seq<u8>,
    uri: Seq<u8>,
    version: Seq<char>,
    status: u16,
    response_bytes: u64,
    referer: Seq<u8>,
    user_agent: Seq<u8>,
)
    ensures
        combined_line(
            escape_bytes(client_ip),
            timestamp,
            method,
            uri,
            version,
            status,
            response_bytes,
            referer,
            user_agent,
        ) == line_pieces(
            escape_bytes(client_ip),
            timestamp,
            escape_bytes(method),
            escape_bytes(uri),
            version,
            decimal(status as nat),
            decimal(response_bytes as nat),
            escape_bytes(referer),
            escape_bytes(user_agent),
        ),
{
    reveal_strlit(" - - [");
    reveal_strlit("] \"");
    reveal_strlit(" ");
    reveal_strlit("\" ");
    reveal_strlit(" \"");
    reveal_strlit("\" \"");
    reveal_strlit("\"");
    reveal_strlit("] ");
    assert(combined_line(
        escape_bytes(client_ip),
        timestamp,
        method,
        uri,
        version,
        status,
        response_bytes,
        referer,
        user_agent,
    ) =~= line_pieces(
        escape_bytes(client_ip),
        timestamp,
        escape_bytes(method),
        escape_bytes(uri),
        version,
        decimal(status as nat),
        decimal(response_bytes as nat),
        escape_bytes(referer),
        escape_bytes(user_agent),
    ));
}

proof fn lemma_quote_free_prefix(ip: Seq<char>, timestamp: Seq<char>)
    requires
        quote_free(ip),
        quote_free(timestamp),
    ensures
        quote_free(ip + " - - ["@ + timestamp + "] "@),
{
    reveal_strlit(" - - [");
    reveal_strlit("] ");
    let p0 = ip + " - - ["@ + timestamp + "] "@;
    assert forall|k: int| 0 <= k < p0.len() implies #[trigger] p0[k] != '"' by {
        if k < ip.len() {
            assert(p0[k] == ip[k]);
        } else if k < ip.len() + 6 {
        } else if k < ip.len() + 6 + timestamp.len() {
            assert(p0[k] == timestamp[k - ip.len() - 6]);
        }
    }
}

proof fn lemma_quote_free_join(a: Seq<char>, b: Seq<char>)
    requires
        quote_free(a),
        quote_free(b),
    ensures
        quote_free(a + " "@ + b),
{
    reveal_strlit(" ");
    let s = a + " "@ + b;
    assert forall|k: int| 0 <= k < s.len() implies #[trigger] s[k] != '"' by {
        if k < a.len() {
            assert(s[k] == a[k]);
        } else if k > a.len() {
            assert(s[k] == b[k - a.len() - 1]);
        }
    }
}

proof fn lemma_plain_quote_free(s: Seq<char>)
    requires
        plain_word(s),
    ensures
        quote_free(s),
{
}

/// Writer and parser agree on the field positions: a line written for a
/// request whose client address, method and URI hold no space byte, whose
/// protocol version is one word without quotes, and whose time holds no
/// double quote reads back as that time, status and response size, whatever
/// the referer and user agent hold.
#[verifier::rlimit(40)]
pub proof fn lemma_combined_line_roundtrip(
    client_ip: Seq<u8>,
    timestamp: Seq<char>,
    method: Seq<u8>,
    uri: Seq<u8>,
    version: Seq<char>,
    status: u16,
    response_bytes: u64,
    referer: Seq<u8>,
    user_agent: Seq<u8>,
)
    requires
        client_ip.len() > 0,
        method.len() > 0,
        uri.len() > 0,
        version.len() > 0,
        forall|k: int| 0 <= k < client_ip.len() ==> client_ip[k] != 0x20,
        forall|k: int| 0 <= k < method.len() ==> method[k] != 0x20,
        forall|k: int| 0 <= k < uri.len() ==> uri[k] != 0x20,
        plain_word(version),
        quote_free(timestamp),
    ensures
        combined_fields(
            combined_line(
                escape_bytes(client_ip),
                timestamp,
                method,
                uri,
                version,
                status,
                response_bytes,
                referer,
                user_agent,
            ),
        ) == Some((timestamp, status, response_bytes)),
{
    let ip = escape_bytes(client_ip);
    let m = escape_bytes(method);
    let u = escape_bytes(uri);
    let r = escape_bytes(referer);
    let a = escape_bytes(user_agent);
    let ds = decimal(status as nat);
    let db = decimal(response_bytes as nat);
    lemma_escaped_word(client_ip);
    lemma_escaped_word(method);
    lemma_escaped_word(uri);
    lemma_escaped_quote_free(referer);
    lemma_escaped_quote_free(user_agent);
    lemma_decimal_word(status as nat);
    lemma_decimal_word(response_bytes as nat);
    crate::text::lemma_decimal_digits(status as nat);
    crate::text::lemma_decimal_digits(response_bytes as nat);
    lemma_line_shape(client_ip, timestamp, method, uri, version, status, response_bytes, referer, user_agent);
    let q = seq!['"'];
    let p0 = ip + " - - ["@ + timestamp + "] "@;
    let p1 = m + " "@ + u + " "@ + version;
    let p2 = " "@ + ds + " "@ + db + " "@;
    let p4 = " "@;
    let r5 = a + q + Seq::<char>::empty();
    let r4 = p4 + q + r5;
    let r3 = r + q + r4;
    let r2 = p2 + q + r3;
    let r1 = p1 + q + r2;
    let line = line_pieces(ip, timestamp, m, u, version, ds, db, r, a);
    assert(line == p0 + q + r1);
    lemma_plain_quote_free(ip);
    lemma_plain_quote_free(m);
    lemma_plain_quote_free(u);
    lemma_plain_quote_free(version);
    lemma_plain_quote_free(ds);
    lemma_plain_quote_free(db);
    lemma_quote_free_prefix(ip, timestamp);
    lemma_quote_free_join(m, u);
    lemma_quote_free_join(m + " "@ + u, version);
    assert(quote_free(p2)) by {
        reveal_strlit(" ");
        assert(quote_free(" "@));
        lemma_quote_free_join(Seq::<char>::empty(), ds);
        assert(" "@ + ds =~= Seq::<char>::empty() + " "@ + ds);
        lemma_quote_free_join(" "@ + ds, db);
        lemma_quote_free_join(" "@ + ds + " "@ + db, Seq::<char>::empty());
        assert(p2 =~= (" "@ + ds + " "@ + db) + " "@ + Seq::<char>::empty());
    }
    assert(quote_free(p4)) by {
        reveal_strlit(" ");
    }
    lemma_split_piece(p0, r1);
    lemma_split_piece(p1, r2);
    lemma_split_piece(p2, r3);
    lemma_split_piece(r, r4);
    lemma_split_piece(p4, r5);
    lemma_split_piece(a, Seq::empty());
    crate::text::lemma_split_nonempty(Seq::<char>::empty(), '"', 0, Seq::empty());
    let parts = split_on(line, '"');
    assert(parts[0] == p0);
    assert(parts[1] == p1);
    assert(parts[2] == p2);
    assert(parts.len() >= 6);
    lemma_prefix_stamp(ip, timestamp);
    lemma_three_words(m, u, version);
    lemma_response_trim(ds, db);
    lemma_two_words(ds, db);
    let stamp = "- - ["@ + timestamp + "]"@;
    assert(stamp.subrange(0, 5) =~= "- - ["@) by {
        reveal_strlit("- - [");
        reveal_strlit("]");
    }
    assert(stamp.subrange(5, stamp.len() - 1) =~= timestamp) by {
        reveal_strlit("- - [");
        reveal_strlit("]");
    }
    assert(stamp.last() == ']') by {
        reveal_strlit("]");
    }
    assert(stamp.len() >= 6) by {
        reveal_strlit("- - [");
        reveal_strlit("]");
    }
}

} // verus!
