//! The audit records, the request context they are recorded with, and the
//! SQL that lists and counts them.
use vstd::prelude::*;
use crate::monitor::model::opt_view;
use crate::text::{owned, push_text};

verus! {

/// Where a call came from. `request_id` is the protocol's own id, which may
/// repeat; it never identifies an audit record.
pub struct AuditRequestContext {
    pub transport: String,
    pub method: Option<String>,
    pub request_id: Option<String>,
    pub route: Option<String>,
    pub forwarded_ip: Option<String>,
    pub user_agent: Option<String>,
}

impl Default for AuditRequestContext {
    fn default() -> (r: Self)
        ensures
            r.transport@ == Seq::<char>::empty(),
            r.method is None,
            r.request_id is None,
            r.route is None,
            r.forwarded_ip is None,
            r.user_agent is None,
    {
        AuditRequestContext {
            transport: String::new(),
            method: None,
            request_id: None,
            route: None,
            forwarded_ip: None,
            user_agent: None,
        }
    }
}

/// What a listing or a count of audit records asks for. Times are the
/// half-open range `[from_ms, to_ms)`; filters apply before ordering and
/// the limit; `successful == Some(false)` takes failures and refusals alike.
pub struct AuditQuery {
    pub from_ms: Option<i64>,
    pub to_ms: Option<i64>,
    pub workspace_id: Option<String>,
    pub tool_name: Option<String>,
    pub transport: Option<String>,
    pub status: Option<String>,
    pub successful: Option<bool>,
    pub record_type: Option<String>,
    pub limit: Option<u32>,
    pub offset: Option<u32>,
    pub include_details: bool,
}

impl Default for AuditQuery {
    fn default() -> (r: Self)
        ensures
            r.from_ms is None && r.to_ms is None && r.workspace_id is None && r.tool_name is None
                && r.transport is None && r.status is None && r.successful is None
                && r.record_type is None && r.limit is None && r.offset is None
                && !r.include_details,
    {
        AuditQuery {
            from_ms: None,
            to_ms: None,
            workspace_id: None,
            tool_name: None,
            transport: None,
            status: None,
            successful: None,
            record_type: None,
            limit: None,
            offset: None,
            include_details: false,
        }
    }
}

/// One audited call. `id` is the audit's own UUID.
pub struct AuditRecord {
    pub id: String,
    pub record_type: String,
    pub parent_id: Option<String>,
    pub started_at_ms: i64,
    pub finished_at_ms: i64,
    pub duration_ms: i64,
    pub workspace_id: Option<String>,
    pub workspace_path: Option<String>,
    pub transport: String,
    pub method: Option<String>,
    pub route: Option<String>,
    pub request_id: Option<String>,
    pub tool_name: Option<String>,
    pub status: String,
    pub is_error: bool,
    pub reason: Option<String>,
    pub forwarded_ip: Option<String>,
    pub user_agent: Option<String>,
    pub input_json: Option<String>,
    pub output_json: Option<String>,
    pub input_bytes: i64,
    pub output_bytes: i64,
    pub input_truncated: bool,
    pub output_truncated: bool,
    pub input_sha256: Option<String>,
    pub output_sha256: Option<String>,
    pub error_code: Option<String>,
    pub error_message: Option<String>,
    pub exit_code: Option<i64>,
    pub termination_reason: Option<String>,
    pub command: Option<String>,
    pub command_args_json: Option<String>,
}

/// A value bound to a `?` of a statement.
pub enum SqlParam {
    Integer(i64),
    Text(String),
}

/// The model of a bound value.
pub enum SqlParamView {
    Integer(i64),
    Text(Seq<char>),
}

impl View for SqlParam {
    type V = SqlParamView;

    open spec fn view(&self) -> SqlParamView {
        match self {
            SqlParam::Integer(v) => SqlParamView::Integer(*v),
            SqlParam::Text(s) => SqlParamView::Text(s@),
        }
    }
}

/// The views of bound values.
pub open spec fn params_view(v: Seq<SqlParam>) -> Seq<SqlParamView> {
    v.map_values(|p: SqlParam| p@)
}

/// A large column, or `NULL` in its place in a summary listing.
pub open spec fn detail_column(include_details: bool, name: Seq<char>) -> Seq<char> {
    if include_details {
        name
    } else {
        "NULL"@
    }
}

/// The shared SELECT of listings and single records. Both forms have the
/// same columns in the same order; a summary only reads `NULL` in place of
/// the four large columns.
pub open spec fn select_sql(include_details: bool) -> Seq<char> {
    "SELECT id, record_type, parent_id, started_at_ms, finished_at_ms, duration_ms,\n                workspace_id, workspace_path, transport, method, route, request_id, tool_name,\n                status, is_error, reason, forwarded_ip, user_agent, "@
        + detail_column(include_details, "input_json"@) + ", "@ + detail_column(
        include_details,
        "output_json"@,
    )
        + ",\n                input_bytes, output_bytes, input_truncated, output_truncated,\n                input_sha256, output_sha256, error_code, error_message, exit_code,\n                termination_reason, "@
        + detail_column(include_details, "command"@) + ", "@ + detail_column(
        include_details,
        "command_args_json"@,
    ) + "\n         FROM audit_records"@
}

fn detail_name(include_details: bool, name: &'static str) -> (r: &'static str)
    ensures
        r@ == detail_column(include_details, name@),
{
    if include_details {
        name
    } else {
        "NULL"
    }
}

/// Builds the SELECT of listings (`include_details == false`) or single
/// records.
pub fn record_select_sql(include_details: bool) -> (r: String)
    ensures
        r@ == select_sql(include_details),
{
    let mut s = owned(
        "SELECT id, record_type, parent_id, started_at_ms, finished_at_ms, duration_ms,\n                workspace_id, workspace_path, transport, method, route, request_id, tool_name,\n                status, is_error, reason, forwarded_ip, user_agent, ",
    );
    push_text(&mut s, detail_name(include_details, "input_json"));
    push_text(&mut s, ", ");
    push_text(&mut s, detail_name(include_details, "output_json"));
    push_text(
        &mut s,
        ",\n                input_bytes, output_bytes, input_truncated, output_truncated,\n                input_sha256, output_sha256, error_code, error_message, exit_code,\n                termination_reason, ",
    );
    push_text(&mut s, detail_name(include_details, "command"));
    push_text(&mut s, ", ");
    push_text(&mut s, detail_name(include_details, "command_args_json"));
    push_text(&mut s, "\n         FROM audit_records");
    s
}

/// A condition appended when an optional text filter is given.
pub open spec fn text_filter_sql(v: Option<Seq<char>>, clause: Seq<char>) -> Seq<char> {
    if v is Some {
        clause
    } else {
        Seq::empty()
    }
}

/// The value bound for an optional text filter.
pub open spec fn text_filter_param(v: Option<Seq<char>>) -> Seq<SqlParamView> {
    match v {
        Some(s) => seq![SqlParamView::Text(s)],
        None => Seq::empty(),
    }
}

/// The WHERE conditions of a query, in a fixed order: time range,
/// workspace, tool, transport, status, outcome, record type.
pub open spec fn filter_sql(q: AuditQuery) -> Seq<char> {
    range_sql(q) + field_sql(q) + outcome_sql(q)
}

/// The values bound to the conditions of [`filter_sql`], in order.
pub open spec fn filter_params(q: AuditQuery) -> Seq<SqlParamView> {
    range_params(q) + field_params(q) + text_filter_param(opt_view(q.record_type))
}

fn push_text_filter(
    sql: &mut String,
    values: &mut Vec<SqlParam>,
    v: &Option<String>,
    clause: &str,
)
    ensures
        final(sql)@ == old(sql)@ + text_filter_sql(opt_view(*v), clause@),
        params_view(final(values)@) == params_view(old(values)@) + text_filter_param(opt_view(*v)),
{
    match v {
        Some(s) => {
            push_text(sql, clause);
            let ghost before = params_view(values@);
            values.push(SqlParam::Text(s.clone()));
            assert(params_view(values@) =~= before + seq![SqlParamView::Text(s@)]);
        },
        None => {
            assert(sql@ =~= sql@ + Seq::<char>::empty());
            assert(params_view(values@) =~= params_view(values@) + Seq::<SqlParamView>::empty());
        },
    }
}

fn push_int_filter(sql: &mut String, values: &mut Vec<SqlParam>, v: Option<i64>, clause: &str)
    ensures
        final(sql)@ == old(sql)@ + (if v is Some {
            clause@
        } else {
            Seq::empty()
        }),
        params_view(final(values)@) == params_view(old(values)@) + (match v {
            Some(x) => seq![SqlParamView::Integer(x)],
            None => Seq::empty(),
        }),
{
    match v {
        Some(x) => {
            push_text(sql, clause);
            let ghost before = params_view(values@);
            values.push(SqlParam::Integer(x));
            assert(params_view(values@) =~= before + seq![SqlParamView::Integer(x)]);
        },
        None => {
            assert(sql@ =~= sql@ + Seq::<char>::empty());
            assert(params_view(values@) =~= params_view(values@) + Seq::<SqlParamView>::empty());
        },
    }
}

/// The time range conditions.
pub open spec fn range_sql(q: AuditQuery) -> Seq<char> {
    (if q.from_ms is Some {
        " AND started_at_ms >= ?"@
    } else {
        Seq::empty()
    }) + (if q.to_ms is Some {
        " AND started_at_ms < ?"@
    } else {
        Seq::empty()
    })
}

/// The values of the time range conditions.
pub open spec fn range_params(q: AuditQuery) -> Seq<SqlParamView> {
    (match q.from_ms {
        Some(v) => seq![SqlParamView::Integer(v)],
        None => Seq::empty(),
    }) + (match q.to_ms {
        Some(v) => seq![SqlParamView::Integer(v)],
        None => Seq::empty(),
    })
}

/// The conditions on workspace, tool, transport and status.
pub open spec fn field_sql(q: AuditQuery) -> Seq<char> {
    text_filter_sql(opt_view(q.workspace_id), " AND workspace_id = ?"@) + text_filter_sql(
        opt_view(q.tool_name),
        " AND tool_name = ?"@,
    ) + text_filter_sql(opt_view(q.transport), " AND transport = ?"@) + text_filter_sql(
        opt_view(q.status),
        " AND status = ?"@,
    )
}

/// The values of the conditions on workspace, tool, transport and status.
pub open spec fn field_params(q: AuditQuery) -> Seq<SqlParamView> {
    text_filter_param(opt_view(q.workspace_id)) + text_filter_param(opt_view(q.tool_name))
        + text_filter_param(opt_view(q.transport)) + text_filter_param(opt_view(q.status))
}

/// The outcome and record type conditions.
pub open spec fn outcome_sql(q: AuditQuery) -> Seq<char> {
    (match q.successful {
        Some(true) => " AND status = 'success'"@,
        Some(false) => " AND status <> 'success'"@,
        None => Seq::empty(),
    }) + text_filter_sql(opt_view(q.record_type), " AND record_type = ?"@)
}

fn append_range(sql: &mut String, values: &mut Vec<SqlParam>, query: &AuditQuery)
    ensures
        final(sql)@ == old(sql)@ + range_sql(*query),
        params_view(final(values)@) == params_view(old(values)@) + range_params(*query),
{
    let ghost s0 = sql@;
    let ghost p0 = params_view(values@);
    push_int_filter(sql, values, query.from_ms, " AND started_at_ms >= ?");
    push_int_filter(sql, values, query.to_ms, " AND started_at_ms < ?");
    assert(sql@ =~= s0 + range_sql(*query));
    assert(params_view(values@) =~= p0 + range_params(*query));
}

fn append_fields(sql: &mut String, values: &mut Vec<SqlParam>, query: &AuditQuery)
    ensures
        final(sql)@ == old(sql)@ + field_sql(*query),
        params_view(final(values)@) == params_view(old(values)@) + field_params(*query),
{
    let ghost s0 = sql@;
    let ghost p0 = params_view(values@);
    push_text_filter(sql, values, &query.workspace_id, " AND workspace_id = ?");
    push_text_filter(sql, values, &query.tool_name, " AND tool_name = ?");
    push_text_filter(sql, values, &query.transport, " AND transport = ?");
    push_text_filter(sql, values, &query.status, " AND status = ?");
    assert(sql@ =~= s0 + field_sql(*query));
    assert(params_view(values@) =~= p0 + field_params(*query));
}

fn append_outcome(sql: &mut String, values: &mut Vec<SqlParam>, query: &AuditQuery)
    ensures
        final(sql)@ == old(sql)@ + outcome_sql(*query),
        params_view(final(values)@) == params_view(old(values)@) + text_filter_param(
            opt_view(query.record_type),
        ),
{
    let ghost s0 = sql@;
    match query.successful {
        Some(true) => push_text(sql, " AND status = 'success'"),
        Some(false) => push_text(sql, " AND status <> 'success'"),
        None => {
            assert(sql@ =~= sql@ + Seq::<char>::empty());
        },
    }
    push_text_filter(sql, values, &query.record_type, " AND record_type = ?");
    assert(sql@ =~= s0 + outcome_sql(*query));
}

/// Appends the query's conditions to a WHERE clause and their values to
/// the bound parameters. Every outside value is bound, never spliced.
pub fn append_filters(sql: &mut String, values: &mut Vec<SqlParam>, query: &AuditQuery)
    ensures
        final(sql)@ == old(sql)@ + filter_sql(*query),
        params_view(final(values)@) == params_view(old(values)@) + filter_params(*query),
{
    let ghost s0 = sql@;
    let ghost p0 = params_view(values@);
    append_range(sql, values, query);
    append_fields(sql, values, query);
    append_outcome(sql, values, query);
    assert(sql@ =~= s0 + filter_sql(*query));
    assert(params_view(values@) =~= p0 + filter_params(*query));
}

/// The listing's row limit: 100 unless given, never above 1000.
pub open spec fn listing_limit(limit: Option<u32>) -> i64 {
    let l = match limit {
        Some(l) => l,
        None => 100u32,
    };
    if l > 1000 {
        1000
    } else {
        l as i64
    }
}

/// The statement and parameters that list records newest first. The
/// conditions come before the ordering and the limit, so "the last N
/// failures" are the newest N failures.
pub fn listing_statement(query: &AuditQuery) -> (r: (String, Vec<SqlParam>))
    ensures
        r.0@ == select_sql(query.include_details) + " WHERE 1 = 1"@ + filter_sql(*query)
            + " ORDER BY started_at_ms DESC LIMIT ? OFFSET ?"@,
        params_view(r.1@) == filter_params(*query) + seq![
            SqlParamView::Integer(listing_limit(query.limit)),
            SqlParamView::Integer(
                match query.offset {
                    Some(o) => o as i64,
                    None => 0,
                },
            ),
        ],
{
    let mut sql = record_select_sql(query.include_details);
    push_text(&mut sql, " WHERE 1 = 1");
    let mut values: Vec<SqlParam> = Vec::new();
    assert(params_view(values@) =~= Seq::<SqlParamView>::empty());
    append_filters(&mut sql, &mut values, query);
    push_text(&mut sql, " ORDER BY started_at_ms DESC LIMIT ? OFFSET ?");
    let l: u32 = match query.limit {
        Some(l) => l,
        None => 100,
    };
    let l: u32 = if l > 1000 {
        1000
    } else {
        l
    };
    let o: u32 = match query.offset {
        Some(o) => o,
        None => 0,
    };
    let ghost before = params_view(values@);
    values.push(SqlParam::Integer(l as i64));
    values.push(SqlParam::Integer(o as i64));
    assert(params_view(values@) =~= before + seq![
        SqlParamView::Integer(listing_limit(query.limit)),
        SqlParamView::Integer(
            match query.offset {
                Some(o) => o as i64,
                None => 0,
            },
        ),
    ]);
    (sql, values)
}

/// The statement that reads one whole record by its audit id.
pub fn record_by_id_statement() -> (r: String)
    ensures
        r@ == select_sql(true) + " WHERE id = ?1"@,
{
    let mut sql = record_select_sql(true);
    push_text(&mut sql, " WHERE id = ?1");
    sql
}

/// The aggregate over tool records, before its conditions.
pub open spec fn stats_select_sql() -> Seq<char> {
    "SELECT COUNT(*),\n                    COALESCE(SUM(CASE WHEN status = 'success' THEN 1 ELSE 0 END), 0),\n                    COALESCE(SUM(CASE WHEN status = 'failure' THEN 1 ELSE 0 END), 0),\n                    COALESCE(SUM(CASE WHEN status = 'rejected' THEN 1 ELSE 0 END), 0),\n                    COALESCE(AVG(duration_ms), 0),\n                    COALESCE(SUM(input_bytes), 0), COALESCE(SUM(output_bytes), 0)\n             FROM audit_records WHERE record_type = 'tool'"@
}

/// The statement and parameters that count tool records with the same
/// conditions as a listing.
pub fn stats_statement(query: &AuditQuery) -> (r: (String, Vec<SqlParam>))
    ensures
        r.0@ == stats_select_sql() + filter_sql(*query),
        params_view(r.1@) == filter_params(*query),
{
    let mut sql = owned(
        "SELECT COUNT(*),\n                    COALESCE(SUM(CASE WHEN status = 'success' THEN 1 ELSE 0 END), 0),\n                    COALESCE(SUM(CASE WHEN status = 'failure' THEN 1 ELSE 0 END), 0),\n                    COALESCE(SUM(CASE WHEN status = 'rejected' THEN 1 ELSE 0 END), 0),\n                    COALESCE(AVG(duration_ms), 0),\n                    COALESCE(SUM(input_bytes), 0), COALESCE(SUM(output_bytes), 0)\n             FROM audit_records WHERE record_type = 'tool'",
    );
    let mut values: Vec<SqlParam> = Vec::new();
    assert(params_view(values@) =~= Seq::<SqlParamView>::empty());
    append_filters(&mut sql, &mut values, query);
    assert(params_view(values@) =~= filter_params(*query));
    (sql, values)
}

/// A record's duration: finish minus start, kept within `i64`.
pub open spec fn clamped_duration(started_at_ms: i64, finished_at_ms: i64) -> int {
    if finished_at_ms - started_at_ms < i64::MIN {
        i64::MIN as int
    } else if finished_at_ms - started_at_ms > i64::MAX {
        i64::MAX as int
    } else {
        finished_at_ms - started_at_ms
    }
}

/// A call's duration; a clock that went backwards gives a negative
/// difference only as far as `i64` allows.
pub fn record_duration(started_at_ms: i64, finished_at_ms: i64) -> (r: i64)
    ensures
        r == clamped_duration(started_at_ms, finished_at_ms),
{
    let d: i128 = finished_at_ms as i128 - started_at_ms as i128;
    if d < i64::MIN as i128 {
        i64::MIN
    } else if d > i64::MAX as i128 {
        i64::MAX
    } else {
        d as i64
    }
}

/// The oldest start time kept when records are kept for `retention_days`;
/// `None` when they are kept for ever.
pub fn retention_cutoff(retention_days: u32, now_ms: i64) -> (r: Option<i64>)
    ensures
        retention_days == 0 ==> r is None,
        retention_days > 0 ==> r == Some(
            if now_ms - retention_days * 86400000 < i64::MIN {
                i64::MIN
            } else {
                (now_ms - retention_days * 86400000) as i64
            },
        ),
{
    if retention_days == 0 {
        return None;
    }
    let c: i128 = now_ms as i128 - retention_days as i128 * 86400000;
    if c < i64::MIN as i128 {
        Some(i64::MIN)
    } else {
        Some(c as i64)
    }
}

/// The day number of a time, counting whole days since the epoch (days
/// before it are negative).
pub fn cleanup_day(now_ms: i64) -> (r: i64)
    ensures
        r == (now_ms as int) / 86400000,
{
    let d: i64 = 86400000;
    if now_ms >= 0 {
        now_ms / d
    } else {
        let m: i128 = 0i128 - (now_ms as i128) - 1;
        let a: i128 = m / (d as i128);
        let q: i128 = 0i128 - a - 1;
        proof {
            let mi = m as int;
            let ai = a as int;
            let r = mi % 86400000;
            assert(mi == 86400000 * ai + r && 0 <= r < 86400000) by (nonlinear_arith)
                requires
                    mi >= 0,
                    ai == mi / 86400000,
                    r == mi % 86400000,
            {
            }
            assert(now_ms as int == 86400000 * (-ai - 1) + (86400000 - r - 1));
            vstd::arithmetic::div_mod::lemma_fundamental_div_mod_converse(
                now_ms as int,
                86400000,
                -ai - 1,
                86400000 - r - 1,
            );
        }
        q as i64
    }
}

} // verus!
