//! Execution records: what the executions table holds, and the summary
//! counts drawn from it.
use vstd::prelude::*;
use uuid::Uuid;
use crate::types::{ExecuteRequest, Language, language_from_lowercase, unicode_lowercase};
use crate::text::{trim, trim_bounds, chars_of};

verus! {

/// What `uuid::Uuid::parse_str` makes of a string: the UUID's 128 bits
/// (`as_u128`), or nothing if it does not parse.
pub uninterp spec fn uuid_parse(s: Seq<char>) -> Option<u128>;

/// `uuid::Uuid::parse_str`, taken to the UUID's bits; the result is named.
#[verifier::external_body]
fn parse_uuid(s: &str) -> (r: Option<u128>)
    ensures
        r == uuid_parse(s@),
{
    match Uuid::parse_str(s) {
        Ok(u) => Some(u.as_u128()),
        Err(_) => None,
    }
}

/// What `chrono::DateTime::parse_from_rfc3339` makes of a string: the
/// instant it writes, as seconds since the Unix epoch and nanoseconds
/// within the second, or nothing if it does not parse.
pub uninterp spec fn rfc3339_instant(s: Seq<char>) -> Option<(i64, u32)>;

/// `chrono::DateTime::parse_from_rfc3339`, taken to the instant it writes
/// (`timestamp` and `timestamp_subsec_nanos`); the result is named.
#[verifier::external_body]
fn parse_rfc3339(s: &str) -> (r: Option<(i64, u32)>)
    ensures
        r == rfc3339_instant(s@),
{
    match chrono::DateTime::parse_from_rfc3339(s) {
        Ok(t) => Some((t.timestamp(), t.timestamp_subsec_nanos())),
        Err(_) => None,
    }
}

/// An instant: seconds since the Unix epoch and nanoseconds within the
/// second.
#[derive(Debug, Clone, Copy, PartialEq, Eq, Structural)]
pub struct Timestamp {
    pub seconds: i64,
    pub nanos: u32,
}

/// A finished run as the executions table records it; its id is the
/// UUID's 128 bits.
pub struct ExecutionRecord {
    pub id: u128,
    pub language: Language,
    pub success: bool,
    pub stdout: String,
    pub stderr: String,
    pub execution_time_ms: u64,
    pub error_message: Option<String>,
    pub created_at: Timestamp,
}

/// A row of the executions table, as read.
pub struct RecentRow {
    pub id: String,
    pub language: String,
    pub success: bool,
    pub stdout: String,
    pub stderr: String,
    pub execution_time_ms: i64,
    pub error_message: Option<String>,
    pub created_at: String,
}

/// A row becomes a record when its id, its language and its time parse.
pub open spec fn row_usable(r: RecentRow) -> bool {
    &&& uuid_parse(r.id@) is Some
    &&& language_from_lowercase(unicode_lowercase(r.language@)) is Some
    &&& rfc3339_instant(r.created_at@) is Some
}

/// The rows that become records, in order.
pub open spec fn usable_rows(rows: Seq<RecentRow>) -> Seq<RecentRow>
    decreases rows.len(),
{
    if rows.len() == 0 {
        seq![]
    } else if row_usable(rows.last()) {
        usable_rows(rows.drop_last()).push(rows.last())
    } else {
        usable_rows(rows.drop_last())
    }
}

/// The record carries the row's fields: its id, its language and its time
/// parsed, its time in milliseconds taken as unsigned.
pub open spec fn record_of_row(rec: ExecutionRecord, row: RecentRow) -> bool {
    &&& Some(rec.id) == uuid_parse(row.id@)
    &&& Some(rec.language) == language_from_lowercase(unicode_lowercase(row.language@))
    &&& rec.success == row.success
    &&& rec.stdout == row.stdout
    &&& rec.stderr == row.stderr
    &&& rec.execution_time_ms == row.execution_time_ms as u64
    &&& rec.error_message == row.error_message
    &&& Some((rec.created_at.seconds, rec.created_at.nanos)) == rfc3339_instant(row.created_at@)
}

/// The records of the rows whose id, language and time parse, in order.
pub fn records_from_rows(rows: Vec<RecentRow>) -> (r: Vec<ExecutionRecord>)
    ensures
        r@.len() == usable_rows(rows@).len(),
        forall|i: int| 0 <= i < r@.len() ==> record_of_row(#[trigger] r@[i], usable_rows(rows@)[i]),
{
    let ghost all = rows@;
    let n = rows.len();
    let mut records: Vec<ExecutionRecord> = Vec::new();
    let mut rest = rows;
    let mut i: usize = 0;
    assert(all.skip(0) =~= all);
    while rest.len() > 0
        invariant
            i + rest@.len() == all.len(),
            all.len() == n,
            rest@ =~= all.skip(i as int),
            records@.len() == usable_rows(all.take(i as int)).len(),
            forall|k: int| 0 <= k < records@.len() ==> record_of_row(#[trigger] records@[k], usable_rows(all.take(i as int))[k]),
        decreases rest.len(),
    {
        let row = rest.remove(0);
        assert(row == all[i as int]);
        assert(rest@ =~= all.skip(i + 1));
        assert(all.take(i + 1).drop_last() =~= all.take(i as int));
        assert(all.take(i + 1).last() == row);
        let id = parse_uuid(row.id.as_str());
        let language = Language::from_str(row.language.as_str());
        let created_at = parse_rfc3339(row.created_at.as_str());
        match (id, language, created_at) {
            (Some(id), Some(language), Some((seconds, nanos))) => {
                let ghost before = records@;
                records.push(ExecutionRecord {
                    id,
                    language,
                    success: row.success,
                    stdout: row.stdout,
                    stderr: row.stderr,
                    execution_time_ms: #[verifier::truncate] (row.execution_time_ms as u64),
                    error_message: row.error_message,
                    created_at: Timestamp { seconds, nanos },
                });
                assert forall|k: int| 0 <= k < records@.len() implies record_of_row(#[trigger] records@[k], usable_rows(all.take(i + 1))[k]) by {
                    if k < before.len() {
                        assert(records@[k] == before[k]);
                    }
                }
            },
            _ => {},
        }
        i = i + 1;
    }
    assert(all.take(all.len() as int) =~= all);
    records
}

/// The summary counts: all runs, the successful ones, and the failed ones,
/// from the table's counts (missing counts as zero, taken as unsigned).
pub fn execution_totals(total: Option<i64>, successful: Option<i64>) -> (r: (u64, u64, u64))
    requires
        (match successful { Some(s) => s, None => 0 }) as u64 <= (match total { Some(t) => t, None => 0 }) as u64,
    ensures
        r.0 == (match total { Some(t) => t, None => 0 }) as u64,
        r.1 == (match successful { Some(s) => s, None => 0 }) as u64,
        r.2 == r.0 - r.1,
{
    let t: i64 = match total {
        Some(t) => t,
        None => 0,
    };
    let s: i64 = match successful {
        Some(s) => s,
        None => 0,
    };
    let total_executions = t as u64;
    let successful_executions = s as u64;
    (total_executions, successful_executions, total_executions - successful_executions)
}

/// Why a request to run code is refused.
#[derive(Debug)]
pub enum RequestError {
    EmptyCode,
    CodeTooLarge,
}

/// The largest program accepted, in bytes.
pub const MAX_CODE_BYTES: usize = 100_000;

/// Checks a request before it runs: the code must hold something besides
/// white space, and be at most 100 000 bytes long.
pub fn validate_execute_request(request: &ExecuteRequest) -> (r: Result<(), RequestError>)
    ensures
        trim(request.code@).len() == 0 ==> r matches Err(RequestError::EmptyCode),
        trim(request.code@).len() > 0 && (vstd::utf8::encode_utf8(request.code@).len() as usize)
            > MAX_CODE_BYTES ==> r matches Err(RequestError::CodeTooLarge),
        trim(request.code@).len() > 0 && (vstd::utf8::encode_utf8(request.code@).len() as usize)
            <= MAX_CODE_BYTES ==> r is Ok,
{
    let cs = chars_of(request.code.as_str());
    let (lo, hi) = trim_bounds(cs.as_slice());
    if lo == hi {
        return Err(RequestError::EmptyCode);
    }
    if request.code.as_str().len() > MAX_CODE_BYTES {
        return Err(RequestError::CodeTooLarge);
    }
    Ok(())
}

impl RequestError {
    /// The message that answers the refused request.
    pub fn message(&self) -> (s: String)
        ensures
            s@ == match self {
                RequestError::EmptyCode => "Code cannot be empty"@,
                RequestError::CodeTooLarge => "Code too large (max 100KB)"@,
            },
    {
        match self {
            RequestError::EmptyCode => String::from_str("Code cannot be empty"),
            RequestError::CodeTooLarge => String::from_str("Code too large (max 100KB)"),
        }
    }
}

} // verus!
