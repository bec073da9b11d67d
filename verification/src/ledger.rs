//! The stress-run ledger: per-vector counters, process samples, the recent
//! event log and the snapshots published to the dashboard.

use vstd::prelude::*;
use std::collections::VecDeque;
use std::time::{Duration, Instant, SystemTime, UNIX_EPOCH};
use crate::duration::Timestamp;
use crate::stress::{
    catalog_id_list, catalog_ids, final_message, final_status_message, ids_distinct, pair_views,
    session_vector_table, session_vectors, StressLogLevel, StressRunState, StressVectorState,
};
use crate::snapshot::chars_eq;
use crate::textual::{chars_to_string, str_to_chars};

verus! {

#[verifier::external_type_specification]
#[verifier::external_body]
pub struct ExInstant(Instant);

#[verifier::external_type_specification]
#[verifier::external_body]
pub struct ExSystemTime(SystemTime);

/// `Instant::now`: a reading of the monotonic clock.
#[verifier::external_body]
fn instant_now() -> Instant {
    Instant::now()
}

/// `Instant::duration_since`: the time from `earlier` to `later` (zero
/// when `later` is not after `earlier`). Nothing is stated of the value:
/// the two readings are opaque.
#[verifier::external_body]
fn elapsed_between(earlier: &Instant, later: &Instant) -> Duration {
    later.duration_since(*earlier)
}

/// `Duration::as_nanos`: the whole span in nanoseconds. Nothing is stated
/// of the value: a `Duration` is opaque here.
#[verifier::external_body]
fn duration_nanos(d: &Duration) -> u128 {
    d.as_nanos()
}

/// `SystemTime::now`: a reading of the wall clock.
#[verifier::external_body]
fn system_now() -> SystemTime {
    SystemTime::now()
}

/// `SystemTime::duration_since(UNIX_EPOCH)`: the span since the Unix
/// epoch, `None` for a time before it.
#[verifier::external_body]
fn since_epoch(time: &SystemTime) -> Option<Duration> {
    time.duration_since(UNIX_EPOCH).ok()
}

/// `Duration::as_secs`: the whole seconds of a span.
#[verifier::external_body]
fn duration_secs(d: &Duration) -> u64 {
    d.as_secs()
}

/// `Duration::subsec_nanos`: the nanoseconds beyond the whole seconds,
/// always below one billion.
#[verifier::external_body]
fn duration_subsec_nanos(d: &Duration) -> (r: u32)
    ensures
        r < 1_000_000_000,
{
    d.subsec_nanos()
}

/// The whole seconds and sub-second nanoseconds of `time` after the Unix
/// epoch, `None` for a time before it.
fn since_unix_epoch(time: &SystemTime) -> (r: Option<(u64, u32)>)
    ensures
        r matches Some(d) ==> d.1 < 1_000_000_000,
{
    match since_epoch(time) {
        Some(d) => Some((duration_secs(&d), duration_subsec_nanos(&d))),
        None => None,
    }
}

/// Nanoseconds from `earlier` to `later` (zero when `later` is not after
/// `earlier`).
fn nanos_between(earlier: &Instant, later: &Instant) -> u128 {
    let d = elapsed_between(earlier, later);
    duration_nanos(&d)
}

/// A lower-case hexadecimal digit.
pub open spec fn is_lower_hex(c: char) -> bool {
    ('0' <= c <= '9') || ('a' <= c <= 'f')
}

/// The hyphenated lower-case text of a version-4 UUID: 36 characters,
/// hyphens at 8, 13, 18 and 23, the version digit `4` at 14, a variant
/// digit of `8`, `9`, `a` or `b` at 19, and hexadecimal digits elsewhere.
pub open spec fn is_v4_uuid_text(s: Seq<char>) -> bool {
    &&& s.len() == 36
    &&& forall|i: int|
        0 <= i < 36 ==> if i == 8 || i == 13 || i == 18 || i == 23 {
            #[trigger] s[i] == '-'
        } else {
            is_lower_hex(s[i])
        }
    &&& s[14] == '4'
    &&& (s[19] == '8' || s[19] == '9' || s[19] == 'a' || s[19] == 'b')
}

/// `Uuid::new_v4().to_string()`: a random version-4 UUID in its hyphenated
/// lower-case form. Which of them comes back is left open.
#[verifier::external_body]
fn new_run_id() -> (r: String)
    ensures
        is_v4_uuid_text(r@),
{
    uuid::Uuid::new_v4().to_string()
}

/// The timestamp of a time `offset` (whole seconds, nanoseconds) after the
/// Unix epoch, when there is one and its seconds fit in an `i64`.
pub fn timestamp_from_epoch_offset(offset: Option<(u64, u32)>) -> (r: Option<Timestamp>)
    requires
        offset matches Some(d) ==> d.1 < 1_000_000_000,
    ensures
        r == match offset {
            Some((secs, nanos)) => if secs <= i64::MAX {
                Some(Timestamp { seconds: secs as i64, nanos: nanos as i32 })
            } else {
                None
            },
            None => None,
        },
        r matches Some(t) ==> 0 <= t.seconds && 0 <= t.nanos < 1_000_000_000,
{
    let (secs, nanos) = match offset {
        Some(d) => d,
        None => return None,
    };
    if secs > i64::MAX as u64 {
        return None;
    }
    Some(Timestamp { seconds: secs as i64, nanos: nanos as i32 })
}

/// The wall-clock time `time` as a timestamp, when it is after the epoch and
/// fits.
pub fn system_time_to_timestamp(time: &SystemTime) -> (r: Option<Timestamp>)
    ensures
        r matches Some(t) ==> 0 <= t.seconds && 0 <= t.nanos < 1_000_000_000,
{
    timestamp_from_epoch_offset(since_unix_epoch(time))
}

/// The current wall-clock time as a timestamp.
pub fn timestamp_now() -> (r: Option<Timestamp>)
    ensures
        r matches Some(t) ==> 0 <= t.seconds && 0 <= t.nanos < 1_000_000_000,
{
    let now = system_now();
    system_time_to_timestamp(&now)
}

/// Operations counted over an elapsed time; the rate is
/// `operations / (elapsed_nanos / 1e9)` per second.
#[derive(Debug, Clone, Copy, PartialEq, Eq, Structural)]
pub struct OperationRate {
    pub operations: u64,
    pub elapsed_nanos: u128,
}

/// The dashboard status of one stress vector.
#[derive(Debug)]
pub struct VectorStatus {
    pub vector_id: String,
    pub display_name: String,
    pub state: StressVectorState,
    pub total_operations: u64,
    pub error_count: u64,
    pub internal_error_count: u64,
    pub last_sample_input: Option<String>,
    pub last_error_message: Option<String>,
    pub last_activity_utc: Option<Timestamp>,
    pub operations_rate: OperationRate,
}

/// A vector's status with the operation count at the last publish.
#[derive(Debug)]
pub struct VectorEntry {
    pub status: VectorStatus,
    pub last_published_total_operations: u64,
}

/// Resource usage of one process (the CPU share as a binary64 encoding).
#[derive(Debug)]
pub struct ProcessMetrics {
    pub process_name: String,
    pub process_id: Option<u32>,
    pub cpu_usage_percent_bits: u64,
    pub working_set_bytes: u64,
    pub virtual_memory_bytes: u64,
}

/// One entry of the run's event log.
#[derive(Debug)]
pub struct LogEntry {
    pub occurred_at_utc: Option<Timestamp>,
    pub level: StressLogLevel,
    pub message: String,
    pub vector_id: Option<String>,
}

/// How a stress run was asked to go.
#[derive(Debug)]
pub struct RunConfiguration {
    pub include_core_vectors: bool,
    pub include_grpc_vectors: bool,
    pub auto_start_engine: bool,
    pub engine_endpoint: String,
    pub grpc_parallelism: u32,
    pub metrics_interval_ms: u32,
    pub duration_seconds: u32,
    pub recent_event_limit: u32,
}

/// What the dashboard shows of a run.
#[derive(Debug)]
pub struct RunSnapshot {
    pub run_id: String,
    pub state: StressRunState,
    pub active_profile_name: String,
    pub configuration: Option<RunConfiguration>,
    pub started_at_utc: Option<Timestamp>,
    pub ended_at_utc: Option<Timestamp>,
    pub status_message: String,
    pub total_operations: u64,
    pub error_count: u64,
    pub internal_error_count: u64,
    pub operations_rate: OperationRate,
    pub vector_statuses: Vec<VectorStatus>,
    pub processes: Vec<ProcessMetrics>,
    pub recent_events: Vec<LogEntry>,
}

fn clone_opt_string(s: &Option<String>) -> (r: Option<String>)
    ensures
        r == *s,
{
    match s {
        Some(v) => Some(v.clone()),
        None => None,
    }
}

impl VectorStatus {
    /// A copy of this status.
    pub fn duplicate(&self) -> (r: Self)
        ensures
            r == *self,
    {
        VectorStatus {
            vector_id: self.vector_id.clone(),
            display_name: self.display_name.clone(),
            state: self.state,
            total_operations: self.total_operations,
            error_count: self.error_count,
            internal_error_count: self.internal_error_count,
            last_sample_input: clone_opt_string(&self.last_sample_input),
            last_error_message: clone_opt_string(&self.last_error_message),
            last_activity_utc: self.last_activity_utc,
            operations_rate: self.operations_rate,
        }
    }
}

impl ProcessMetrics {
    /// A copy of these metrics.
    pub fn duplicate(&self) -> (r: Self)
        ensures
            r == *self,
    {
        ProcessMetrics {
            process_name: self.process_name.clone(),
            process_id: self.process_id,
            cpu_usage_percent_bits: self.cpu_usage_percent_bits,
            working_set_bytes: self.working_set_bytes,
            virtual_memory_bytes: self.virtual_memory_bytes,
        }
    }
}

impl LogEntry {
    /// A copy of this entry.
    pub fn duplicate(&self) -> (r: Self)
        ensures
            r == *self,
    {
        LogEntry {
            occurred_at_utc: self.occurred_at_utc,
            level: self.level,
            message: self.message.clone(),
            vector_id: clone_opt_string(&self.vector_id),
        }
    }
}

impl RunConfiguration {
    /// A copy of this configuration.
    pub fn duplicate(&self) -> (r: Self)
        ensures
            r == *self,
    {
        RunConfiguration {
            include_core_vectors: self.include_core_vectors,
            include_grpc_vectors: self.include_grpc_vectors,
            auto_start_engine: self.auto_start_engine,
            engine_endpoint: self.engine_endpoint.clone(),
            grpc_parallelism: self.grpc_parallelism,
            metrics_interval_ms: self.metrics_interval_ms,
            duration_seconds: self.duration_seconds,
            recent_event_limit: self.recent_event_limit,
        }
    }
}


/// `a` sorts before `b` (`str` order: code point by code point, a proper
/// prefix first).
pub open spec fn lex_lt(a: Seq<char>, b: Seq<char>) -> bool
    decreases a.len(),
{
    if a.len() == 0 {
        b.len() > 0
    } else if b.len() == 0 {
        false
    } else if a[0] != b[0] {
        a[0] < b[0]
    } else {
        lex_lt(a.drop_first(), b.drop_first())
    }
}

proof fn lemma_lex_irreflexive(a: Seq<char>)
    ensures
        !lex_lt(a, a),
    decreases a.len(),
{
    if a.len() > 0 {
        lemma_lex_irreflexive(a.drop_first());
    }
}

proof fn lemma_lex_total(a: Seq<char>, b: Seq<char>)
    ensures
        a == b || lex_lt(a, b) || lex_lt(b, a),
        !(lex_lt(a, b) && lex_lt(b, a)),
    decreases a.len(),
{
    if a.len() > 0 && b.len() > 0 && a[0] == b[0] {
        lemma_lex_total(a.drop_first(), b.drop_first());
        if a.drop_first() == b.drop_first() {
            assert(a =~= seq![a[0]] + a.drop_first());
            assert(b =~= seq![b[0]] + b.drop_first());
        }
    } else if a.len() == 0 && b.len() == 0 {
        assert(a =~= b);
    }
}

proof fn lemma_lex_transitive(a: Seq<char>, b: Seq<char>, c: Seq<char>)
    requires
        lex_lt(a, b),
        lex_lt(b, c),
    ensures
        lex_lt(a, c),
    decreases a.len(),
{
    if a.len() > 0 && b.len() > 0 && c.len() > 0 && a[0] == b[0] && b[0] == c[0] {
        lemma_lex_transitive(a.drop_first(), b.drop_first(), c.drop_first());
    }
}

/// Compares `a` and `b` in `str` order: negative, zero or positive.
fn compare_chars(a: &[char], b: &[char]) -> (r: i8)
    ensures
        r < 0 <==> lex_lt(a@, b@),
        r == 0 <==> a@ == b@,
        r > 0 <==> lex_lt(b@, a@),
{
    proof {
        lemma_lex_total(a@, b@);
        lemma_lex_irreflexive(a@);
    }
    let mut i: usize = 0;
    assert(a@.skip(0) =~= a@);
    assert(b@.skip(0) =~= b@);
    while i < a.len() && i < b.len()
        invariant
            i <= a.len(),
            i <= b.len(),
            a@.take(i as int) == b@.take(i as int),
            lex_lt(a@, b@) == lex_lt(a@.skip(i as int), b@.skip(i as int)),
            lex_lt(b@, a@) == lex_lt(b@.skip(i as int), a@.skip(i as int)),
        decreases a.len() - i,
    {
        assert(a@.skip(i as int)[0] == a@[i as int]);
        assert(b@.skip(i as int)[0] == b@[i as int]);
        if a[i] != b[i] {
            if a[i] < b[i] {
                return -1;
            } else {
                return 1;
            }
        }
        assert(a@.skip(i as int).drop_first() =~= a@.skip(i + 1));
        assert(b@.skip(i as int).drop_first() =~= b@.skip(i + 1));
        assert(a@.take(i + 1) =~= a@.take(i as int).push(a@[i as int]));
        assert(b@.take(i + 1) =~= b@.take(i as int).push(b@[i as int]));
        i = i + 1;
    }
    if a.len() == b.len() {
        assert(a@ =~= a@.take(i as int));
        assert(b@ =~= b@.take(i as int));
        0
    } else if a.len() < b.len() {
        -1
    } else {
        1
    }
}

/// `a + 1` saturating at `u64::MAX`.
pub open spec fn sat_inc(a: u64) -> u64 {
    if a == u64::MAX {
        a
    } else {
        (a + 1) as u64
    }
}

/// `a - b` saturating at 0.
pub open spec fn sat_diff(a: u64, b: u64) -> u64 {
    if a >= b {
        (a - b) as u64
    } else {
        0
    }
}

pub open spec fn entry_id(e: VectorEntry) -> Seq<char> {
    e.status.vector_id@
}

/// The position of the entry for vector `id` at or after `k`, or -1.
pub open spec fn find_id(entries: Seq<VectorEntry>, id: Seq<char>, k: int) -> int
    decreases entries.len() - k,
{
    if k < 0 || k >= entries.len() {
        -1
    } else if entry_id(entries[k]) == id {
        k
    } else {
        find_id(entries, id, k + 1)
    }
}

/// Scanning from `k`, the first entry whose id does not sort before `id`:
/// where an entry for `id` sits or belongs.
pub open spec fn slot_for(entries: Seq<VectorEntry>, id: Seq<char>, k: int) -> int
    decreases entries.len() - k,
{
    if k < 0 || k >= entries.len() {
        entries.len() as int
    } else if !lex_lt(entry_id(entries[k]), id) {
        k
    } else {
        slot_for(entries, id, k + 1)
    }
}

/// Entries in strictly increasing id order (so ids are unique).
pub open spec fn sorted_by_id(entries: Seq<VectorEntry>) -> bool {
    forall|i: int, j: int|
        0 <= i < j < entries.len() ==> lex_lt(entry_id(#[trigger] entries[i]), entry_id(
            #[trigger] entries[j],
        ))
}

/// A newly registered, idle vector with no activity.
pub open spec fn is_fresh(e: VectorEntry, id: Seq<char>, name: Seq<char>) -> bool {
    &&& e.status.vector_id@ == id
    &&& e.status.display_name@ == name
    &&& e.status.state == StressVectorState::Idle
    &&& e.status.total_operations == 0
    &&& e.status.error_count == 0
    &&& e.status.internal_error_count == 0
    &&& e.status.last_sample_input.is_none()
    &&& e.status.last_error_message.is_none()
    &&& e.status.last_activity_utc.is_none()
    &&& e.status.operations_rate == (OperationRate { operations: 0, elapsed_nanos: 0 })
    &&& e.last_published_total_operations == 0
}

/// The entry after one attempt with input `sample` at time `at`.
pub open spec fn attempted(e: VectorEntry, sample: String, at: Option<Timestamp>) -> VectorEntry {
    VectorEntry {
        status: VectorStatus {
            total_operations: sat_inc(e.status.total_operations),
            last_sample_input: Some(sample),
            last_activity_utc: at,
            state: if e.status.state == StressVectorState::Failed {
                StressVectorState::Failed
            } else {
                StressVectorState::Running
            },
            ..e.status
        },
        ..e
    }
}

/// The entry after an attempt failed with `message`.
pub open spec fn failed(e: VectorEntry, message: String, internal: bool) -> VectorEntry {
    VectorEntry {
        status: VectorStatus {
            error_count: sat_inc(e.status.error_count),
            internal_error_count: if internal {
                sat_inc(e.status.internal_error_count)
            } else {
                e.status.internal_error_count
            },
            last_error_message: Some(message),
            ..e.status
        },
        ..e
    }
}

/// The entry after a publish that saw `elapsed` nanoseconds since the last.
pub open spec fn published(e: VectorEntry, elapsed: u128) -> VectorEntry {
    VectorEntry {
        status: VectorStatus {
            operations_rate: OperationRate {
                operations: sat_diff(e.status.total_operations, e.last_published_total_operations),
                elapsed_nanos: elapsed,
            },
            ..e.status
        },
        last_published_total_operations: e.status.total_operations,
    }
}

/// A completed, failed or stopped run.
pub open spec fn is_terminal(state: StressRunState) -> bool {
    state == StressRunState::Completed || state == StressRunState::Failed || state
        == StressRunState::Stopped
}

/// The log after `entry` arrives, keeping the last `limit` entries.
pub open spec fn log_window(events: Seq<LogEntry>, entry: LogEntry, limit: nat) -> Seq<LogEntry> {
    let w = events.push(entry);
    if w.len() > limit {
        w.skip(w.len() - limit)
    } else {
        w
    }
}

/// `a` and `b` hold the same values, their lists element by element.
pub open spec fn same_snapshot(a: RunSnapshot, b: RunSnapshot) -> bool {
    &&& a.run_id == b.run_id
    &&& a.state == b.state
    &&& a.active_profile_name == b.active_profile_name
    &&& a.configuration == b.configuration
    &&& a.started_at_utc == b.started_at_utc
    &&& a.ended_at_utc == b.ended_at_utc
    &&& a.status_message == b.status_message
    &&& a.total_operations == b.total_operations
    &&& a.error_count == b.error_count
    &&& a.internal_error_count == b.internal_error_count
    &&& a.operations_rate == b.operations_rate
    &&& a.vector_statuses@ == b.vector_statuses@
    &&& a.processes@ == b.processes@
    &&& a.recent_events@ == b.recent_events@
}

fn clone_statuses(v: &Vec<VectorStatus>) -> (r: Vec<VectorStatus>)
    ensures
        r@ == v@,
{
    let mut r: Vec<VectorStatus> = Vec::new();
    let mut i: usize = 0;
    while i < v.len()
        invariant
            i <= v.len(),
            r@ == v@.take(i as int),
        decreases v.len() - i,
    {
        r.push(v[i].duplicate());
        assert(v@.take(i + 1) =~= v@.take(i as int).push(v@[i as int]));
        i = i + 1;
    }
    assert(v@.take(v.len() as int) =~= v@);
    r
}

fn clone_processes(v: &Vec<ProcessMetrics>) -> (r: Vec<ProcessMetrics>)
    ensures
        r@ == v@,
{
    let mut r: Vec<ProcessMetrics> = Vec::new();
    let mut i: usize = 0;
    while i < v.len()
        invariant
            i <= v.len(),
            r@ == v@.take(i as int),
        decreases v.len() - i,
    {
        r.push(v[i].duplicate());
        assert(v@.take(i + 1) =~= v@.take(i as int).push(v@[i as int]));
        i = i + 1;
    }
    assert(v@.take(v.len() as int) =~= v@);
    r
}

fn clone_events(v: &Vec<LogEntry>) -> (r: Vec<LogEntry>)
    ensures
        r@ == v@,
{
    let mut r: Vec<LogEntry> = Vec::new();
    let mut i: usize = 0;
    while i < v.len()
        invariant
            i <= v.len(),
            r@ == v@.take(i as int),
        decreases v.len() - i,
    {
        r.push(v[i].duplicate());
        assert(v@.take(i + 1) =~= v@.take(i as int).push(v@[i as int]));
        i = i + 1;
    }
    assert(v@.take(v.len() as int) =~= v@);
    r
}

impl RunSnapshot {
    /// An idle run with nothing recorded, showing `status_message`.
    pub fn idle(status_message: String) -> (s: Self)
        ensures
            s.state == StressRunState::Idle,
            s.status_message == status_message,
            s.run_id@ == Seq::<char>::empty(),
            s.active_profile_name@ == Seq::<char>::empty(),
            s.configuration.is_none(),
            s.started_at_utc.is_none(),
            s.ended_at_utc.is_none(),
            s.total_operations == 0,
            s.error_count == 0,
            s.internal_error_count == 0,
            s.operations_rate == (OperationRate { operations: 0, elapsed_nanos: 0 }),
            s.vector_statuses@.len() == 0,
            s.processes@.len() == 0,
            s.recent_events@.len() == 0,
    {
        RunSnapshot {
            run_id: String::new(),
            state: StressRunState::Idle,
            active_profile_name: String::new(),
            configuration: None,
            started_at_utc: None,
            ended_at_utc: None,
            status_message,
            total_operations: 0,
            error_count: 0,
            internal_error_count: 0,
            operations_rate: OperationRate { operations: 0, elapsed_nanos: 0 },
            vector_statuses: Vec::new(),
            processes: Vec::new(),
            recent_events: Vec::new(),
        }
    }

    /// A copy of this snapshot.
    pub fn duplicate(&self) -> (r: Self)
        ensures
            same_snapshot(r, *self),
    {
        RunSnapshot {
            run_id: self.run_id.clone(),
            state: self.state,
            active_profile_name: self.active_profile_name.clone(),
            configuration: match &self.configuration {
                Some(c) => Some(c.duplicate()),
                None => None,
            },
            started_at_utc: self.started_at_utc,
            ended_at_utc: self.ended_at_utc,
            status_message: self.status_message.clone(),
            total_operations: self.total_operations,
            error_count: self.error_count,
            internal_error_count: self.internal_error_count,
            operations_rate: self.operations_rate,
            vector_statuses: clone_statuses(&self.vector_statuses),
            processes: clone_processes(&self.processes),
            recent_events: clone_events(&self.recent_events),
        }
    }
}


/// A process sample filed under the name it was reported as.
#[derive(Debug)]
pub struct ProcessSlot {
    pub name: String,
    pub metrics: ProcessMetrics,
}

/// Slots in strictly increasing name order.
pub open spec fn slots_sorted(ps: Seq<ProcessSlot>) -> bool {
    forall|i: int, j: int|
        0 <= i < j < ps.len() ==> lex_lt((#[trigger] ps[i]).name@, (#[trigger] ps[j]).name@)
}

/// The position of the slot named `name` at or after `k`, or -1.
pub open spec fn find_slot(ps: Seq<ProcessSlot>, name: Seq<char>, k: int) -> int
    decreases ps.len() - k,
{
    if k < 0 || k >= ps.len() {
        -1
    } else if ps[k].name@ == name {
        k
    } else {
        find_slot(ps, name, k + 1)
    }
}

/// Scanning from `k`, the first slot whose name does not sort before `name`.
pub open spec fn slot_position(ps: Seq<ProcessSlot>, name: Seq<char>, k: int) -> int
    decreases ps.len() - k,
{
    if k < 0 || k >= ps.len() {
        ps.len() as int
    } else if !lex_lt(ps[k].name@, name) {
        k
    } else {
        slot_position(ps, name, k + 1)
    }
}

proof fn lemma_find_id(entries: Seq<VectorEntry>, id: Seq<char>, k: int)
    requires
        0 <= k,
    ensures
        find_id(entries, id, k) == -1 || (k <= find_id(entries, id, k) < entries.len()
            && entry_id(entries[find_id(entries, id, k)]) == id),
        find_id(entries, id, k) == -1 ==> forall|i: int|
            k <= i < entries.len() ==> entry_id(#[trigger] entries[i]) != id,
        find_id(entries, id, k) != -1 ==> forall|i: int|
            k <= i < find_id(entries, id, k) ==> entry_id(#[trigger] entries[i]) != id,
    decreases entries.len() - k,
{
    if k < entries.len() && entry_id(entries[k]) != id {
        lemma_find_id(entries, id, k + 1);
    }
}

proof fn lemma_slot_for(entries: Seq<VectorEntry>, id: Seq<char>, k: int)
    requires
        0 <= k <= entries.len(),
    ensures
        k <= slot_for(entries, id, k) <= entries.len(),
        forall|i: int|
            k <= i < slot_for(entries, id, k) ==> lex_lt(entry_id(#[trigger] entries[i]), id),
        slot_for(entries, id, k) < entries.len() ==> !lex_lt(
            entry_id(entries[slot_for(entries, id, k)]),
            id,
        ),
    decreases entries.len() - k,
{
    if k < entries.len() && lex_lt(entry_id(entries[k]), id) {
        lemma_slot_for(entries, id, k + 1);
    }
}

/// Inserting an entry for a new id at its slot keeps the entries sorted.
proof fn lemma_insert_sorted(entries: Seq<VectorEntry>, e: VectorEntry)
    requires
        sorted_by_id(entries),
        find_id(entries, entry_id(e), 0) == -1,
    ensures
        sorted_by_id(entries.insert(slot_for(entries, entry_id(e), 0), e)),
{
    let id = entry_id(e);
    let p = slot_for(entries, id, 0);
    lemma_slot_for(entries, id, 0);
    lemma_find_id(entries, id, 0);
    let n = entries.insert(p, e);
    assert forall|i: int, j: int| 0 <= i < j < n.len() implies lex_lt(
        entry_id(#[trigger] n[i]),
        entry_id(#[trigger] n[j]),
    ) by {
        if j < p {
            assert(n[i] == entries[i] && n[j] == entries[j]);
        } else if j == p {
            assert(n[i] == entries[i]);
        } else if i == p {
            assert(n[j] == entries[j - 1]);
            lemma_lex_total(entry_id(entries[p]), id);
            if j - 1 > p {
                assert(lex_lt(entry_id(entries[p]), entry_id(entries[j - 1])));
                lemma_lex_transitive(id, entry_id(entries[p]), entry_id(entries[j - 1]));
            }
        } else if i < p {
            assert(n[i] == entries[i] && n[j] == entries[j - 1]);
        } else {
            assert(n[i] == entries[i - 1] && n[j] == entries[j - 1]);
        }
    }
}

proof fn lemma_find_slot(ps: Seq<ProcessSlot>, name: Seq<char>, k: int)
    requires
        0 <= k,
    ensures
        find_slot(ps, name, k) == -1 || (k <= find_slot(ps, name, k) < ps.len()
            && ps[find_slot(ps, name, k)].name@ == name),
        find_slot(ps, name, k) == -1 ==> forall|i: int|
            k <= i < ps.len() ==> (#[trigger] ps[i]).name@ != name,
    decreases ps.len() - k,
{
    if k < ps.len() && ps[k].name@ != name {
        lemma_find_slot(ps, name, k + 1);
    }
}

proof fn lemma_slot_position(ps: Seq<ProcessSlot>, name: Seq<char>, k: int)
    requires
        0 <= k <= ps.len(),
    ensures
        k <= slot_position(ps, name, k) <= ps.len(),
        forall|i: int|
            k <= i < slot_position(ps, name, k) ==> lex_lt((#[trigger] ps[i]).name@, name),
        slot_position(ps, name, k) < ps.len() ==> !lex_lt(
            ps[slot_position(ps, name, k)].name@,
            name,
        ),
    decreases ps.len() - k,
{
    if k < ps.len() && lex_lt(ps[k].name@, name) {
        lemma_slot_position(ps, name, k + 1);
    }
}

proof fn lemma_insert_slot_sorted(ps: Seq<ProcessSlot>, s: ProcessSlot)
    requires
        slots_sorted(ps),
        find_slot(ps, s.name@, 0) == -1,
    ensures
        slots_sorted(ps.insert(slot_position(ps, s.name@, 0), s)),
{
    let name = s.name@;
    let p = slot_position(ps, name, 0);
    lemma_slot_position(ps, name, 0);
    lemma_find_slot(ps, name, 0);
    let n = ps.insert(p, s);
    assert forall|i: int, j: int| 0 <= i < j < n.len() implies lex_lt(
        (#[trigger] n[i]).name@,
        (#[trigger] n[j]).name@,
    ) by {
        if j < p {
            assert(n[i] == ps[i] && n[j] == ps[j]);
        } else if j == p {
            assert(n[i] == ps[i]);
        } else if i == p {
            assert(n[j] == ps[j - 1]);
            lemma_lex_total(ps[p].name@, name);
            if j - 1 > p {
                assert(lex_lt(ps[p].name@, ps[j - 1].name@));
                lemma_lex_transitive(name, ps[p].name@, ps[j - 1].name@);
            }
        } else if i < p {
            assert(n[i] == ps[i] && n[j] == ps[j - 1]);
        } else {
            assert(n[i] == ps[i - 1] && n[j] == ps[j - 1]);
        }
    }
}

/// An entry for `id` found at `p` by a search from 0 is found the same way
/// in any sequence that agrees on the ids before and at `p`.
proof fn lemma_find_prefix(entries: Seq<VectorEntry>, id: Seq<char>, p: int)
    requires
        0 <= p < entries.len(),
        entry_id(entries[p]) == id,
        forall|k: int| 0 <= k < p ==> entry_id(#[trigger] entries[k]) != id,
    ensures
        find_id(entries, id, 0) == p,
{
    lemma_find_from_k(entries, id, p, 0);
}

proof fn lemma_find_from_k(entries: Seq<VectorEntry>, id: Seq<char>, p: int, k: int)
    requires
        0 <= k <= p < entries.len(),
        entry_id(entries[p]) == id,
        forall|j: int| 0 <= j < p ==> entry_id(#[trigger] entries[j]) != id,
    ensures
        find_id(entries, id, k) == p,
    decreases p - k,
{
    if k < p {
        lemma_find_from_k(entries, id, p, k + 1);
    }
}


/// The statuses of `entries`, in order.
pub open spec fn statuses_of(entries: Seq<VectorEntry>) -> Seq<VectorStatus> {
    entries.map_values(|e: VectorEntry| e.status)
}

/// The metrics of `slots`, in order.
pub open spec fn metrics_of(slots: Seq<ProcessSlot>) -> Seq<ProcessMetrics> {
    slots.map_values(|s: ProcessSlot| s.metrics)
}

fn publish_entries(entries: &mut Vec<VectorEntry>, elapsed: u128)
    requires
        sorted_by_id(old(entries)@),
    ensures
        sorted_by_id(final(entries)@),
        final(entries)@ == old(entries)@.map_values(|e: VectorEntry| published(e, elapsed)),
{
    let ghost before = entries@;
    let mut i: usize = 0;
    while i < entries.len()
        invariant
            entries@.len() == before.len(),
            0 <= i <= before.len(),
            forall|k: int| 0 <= k < i ==> entries@[k] == published(before[k], elapsed),
            forall|k: int| i <= k < before.len() ==> entries@[k] == before[k],
        decreases before.len() - i,
    {
        let n = entries[i].status.total_operations;
        let p = entries[i].last_published_total_operations;
        let mut e = VectorEntry {
            status: entries[i].status.duplicate(),
            last_published_total_operations: n,
        };
        e.status.operations_rate = OperationRate {
            operations: if n >= p {
                n - p
            } else {
                0
            },
            elapsed_nanos: elapsed,
        };
        entries.set(i, e);
        i = i + 1;
    }
    assert(entries@ =~= before.map_values(|e: VectorEntry| published(e, elapsed)));
    assert forall|a: int, b: int| 0 <= a < b < entries@.len() implies lex_lt(
        entry_id(#[trigger] entries@[a]),
        entry_id(#[trigger] entries@[b]),
    ) by {
        assert(entry_id(entries@[a]) == entry_id(before[a]));
        assert(entry_id(entries@[b]) == entry_id(before[b]));
    }
}

fn statuses_of_entries(entries: &Vec<VectorEntry>) -> (r: Vec<VectorStatus>)
    ensures
        r@ == statuses_of(entries@),
{
    let mut r: Vec<VectorStatus> = Vec::new();
    let mut i: usize = 0;
    while i < entries.len()
        invariant
            0 <= i <= entries@.len(),
            r@ == statuses_of(entries@.take(i as int)),
        decreases entries@.len() - i,
    {
        r.push(entries[i].status.duplicate());
        assert(statuses_of(entries@.take(i + 1)) =~= statuses_of(entries@.take(i as int)).push(
            entries@[i as int].status,
        ));
        i = i + 1;
    }
    assert(entries@.take(entries@.len() as int) =~= entries@);
    r
}

fn metrics_of_slots(slots: &Vec<ProcessSlot>) -> (r: Vec<ProcessMetrics>)
    ensures
        r@ == metrics_of(slots@),
{
    let mut r: Vec<ProcessMetrics> = Vec::new();
    let mut i: usize = 0;
    while i < slots.len()
        invariant
            0 <= i <= slots@.len(),
            r@ == metrics_of(slots@.take(i as int)),
        decreases slots@.len() - i,
    {
        r.push(slots[i].metrics.duplicate());
        assert(metrics_of(slots@.take(i + 1)) =~= metrics_of(slots@.take(i as int)).push(
            slots@[i as int].metrics,
        ));
        i = i + 1;
    }
    assert(slots@.take(slots@.len() as int) =~= slots@);
    r
}

fn events_in_order(events: &VecDeque<LogEntry>) -> (r: Vec<LogEntry>)
    ensures
        r@ == events@,
{
    let mut r: Vec<LogEntry> = Vec::new();
    let mut i: usize = 0;
    while i < events.len()
        invariant
            0 <= i <= events@.len(),
            r@ == events@.take(i as int),
        decreases events@.len() - i,
    {
        r.push(events[i].duplicate());
        assert(events@.take(i + 1) =~= events@.take(i as int).push(events@[i as int]));
        i = i + 1;
    }
    assert(events@.take(events@.len() as int) =~= events@);
    r
}

/// Every vector of `vectors` has a fresh entry in `entries`.
pub open spec fn covers(entries: Seq<VectorEntry>, vectors: Seq<(Seq<char>, Seq<char>)>) -> bool {
    forall|j: int|
        #![trigger vectors[j]]
        0 <= j < vectors.len() ==> exists|k: int|
            #![trigger entries[k]]
            0 <= k < entries.len() && is_fresh(entries[k], vectors[j].0, vectors[j].1)
}

/// Entry `k` of `entries` is the fresh entry of some vector of `vectors`.
pub open spec fn drawn_at(entries: Seq<VectorEntry>, vectors: Seq<(Seq<char>, Seq<char>)>, k: int) -> bool {
    exists|j: int|
        #![trigger vectors[j]]
        0 <= j < vectors.len() && is_fresh(entries[k], vectors[j].0, vectors[j].1)
}

/// Every entry of `entries` is the fresh entry of a vector of `vectors`.
pub open spec fn drawn_from(entries: Seq<VectorEntry>, vectors: Seq<(Seq<char>, Seq<char>)>) -> bool {
    forall|k: int| 0 <= k < entries.len() ==> #[trigger] drawn_at(entries, vectors, k)
}

/// `entries` hold one fresh entry for each of `vectors` and nothing else.
pub open spec fn fresh_for(entries: Seq<VectorEntry>, vectors: Seq<(Seq<char>, Seq<char>)>) -> bool {
    &&& entries.len() == vectors.len()
    &&& covers(entries, vectors)
    &&& drawn_from(entries, vectors)
}

/// `e` marked running.
pub open spec fn running(e: VectorEntry) -> VectorEntry {
    VectorEntry { status: VectorStatus { state: StressVectorState::Running, ..e.status }, ..e }
}

/// `e` marked completed, unless it failed.
pub open spec fn completed(e: VectorEntry) -> VectorEntry {
    if e.status.state == StressVectorState::Failed {
        e
    } else {
        VectorEntry { status: VectorStatus { state: StressVectorState::Completed, ..e.status }, ..e }
    }
}

/// The entries with every catalogued vector marked running.
pub open spec fn catalog_running(entries: Seq<VectorEntry>) -> Seq<VectorEntry> {
    entries.map_values(
        |e: VectorEntry|
            if catalog_ids().contains(entry_id(e)) {
                running(e)
            } else {
                e
            },
    )
}

/// The announcement that profile `name` was selected.
pub open spec fn profile_selected(name: Seq<char>) -> Seq<char> {
    "Profile '"@ + name + "' selected."@
}

proof fn lemma_new_id_absent(
    before: Seq<VectorEntry>,
    pv: Seq<(Seq<char>, Seq<char>)>,
    j: int,
)
    requires
        0 <= j < pv.len(),
        ids_distinct(pv),
        drawn_from(before, pv.take(j)),
    ensures
        find_id(before, pv[j].0, 0) == -1,
{
    lemma_find_id(before, pv[j].0, 0);
    let p = find_id(before, pv[j].0, 0);
    if p != -1 {
        let prior = pv.take(j);
        assert(drawn_at(before, prior, p));
        let w = choose|w: int| 0 <= w < prior.len() && is_fresh(before[p], prior[w].0, prior[w].1);
        assert(prior[w] == pv[w]);
        assert(pv[w].0 != pv[j].0);
    }
}

proof fn lemma_register_covers(
    before: Seq<VectorEntry>,
    e: VectorEntry,
    q: int,
    pv: Seq<(Seq<char>, Seq<char>)>,
    j: int,
)
    requires
        0 <= j < pv.len(),
        0 <= q <= before.len(),
        covers(before, pv.take(j)),
        is_fresh(e, pv[j].0, pv[j].1),
    ensures
        covers(before.insert(q, e), pv.take(j + 1)),
{
    let after = before.insert(q, e);
    let taken = pv.take(j + 1);
    let prior = pv.take(j);
    assert forall|a: int|
        #![trigger taken[a]]
        0 <= a < taken.len() implies exists|k: int|
            #![trigger after[k]]
            0 <= k < after.len() && is_fresh(after[k], taken[a].0, taken[a].1) by {
        if a == j {
            assert(after[q] == e);
        } else {
            assert(taken[a] == prior[a]);
            let k = choose|k: int| 0 <= k < before.len() && is_fresh(before[k], prior[a].0, prior[a].1);
            if k < q {
                assert(after[k] == before[k]);
            } else {
                assert(after[k + 1] == before[k]);
            }
        }
    }
}

proof fn lemma_register_drawn(
    before: Seq<VectorEntry>,
    e: VectorEntry,
    q: int,
    pv: Seq<(Seq<char>, Seq<char>)>,
    j: int,
)
    requires
        0 <= j < pv.len(),
        0 <= q <= before.len(),
        drawn_from(before, pv.take(j)),
        is_fresh(e, pv[j].0, pv[j].1),
    ensures
        drawn_from(before.insert(q, e), pv.take(j + 1)),
{
    let after = before.insert(q, e);
    let taken = pv.take(j + 1);
    let prior = pv.take(j);
    assert forall|k: int| 0 <= k < after.len() implies drawn_at(after, taken, k) by {
        if k == q {
            assert(taken[j] == pv[j]);
        } else {
            let b = if k < q {
                k
            } else {
                k - 1
            };
            assert(after[k] == before[b]);
            assert(drawn_at(before, prior, b));
            let a = choose|a: int| 0 <= a < prior.len() && is_fresh(before[b], prior[a].0, prior[a].1);
            assert(taken[a] == prior[a]);
        }
    }
}

proof fn lemma_register_step(
    before: Seq<VectorEntry>,
    e: VectorEntry,
    q: int,
    pv: Seq<(Seq<char>, Seq<char>)>,
    j: int,
)
    requires
        0 <= j < pv.len(),
        0 <= q <= before.len(),
        fresh_for(before, pv.take(j)),
        is_fresh(e, pv[j].0, pv[j].1),
    ensures
        fresh_for(before.insert(q, e), pv.take(j + 1)),
{
    lemma_register_covers(before, e, q, pv, j);
    lemma_register_drawn(before, e, q, pv, j);
}

fn mark_catalog_running(entries: &mut Vec<VectorEntry>)
    requires
        sorted_by_id(old(entries)@),
    ensures
        sorted_by_id(final(entries)@),
        final(entries)@ == catalog_running(old(entries)@),
{
    let ids = catalog_id_list();
    let ghost before = entries@;
    let mut i: usize = 0;
    while i < entries.len()
        invariant
            i <= before.len(),
            entries@.len() == before.len(),
            ids@.map_values(|v: Vec<char>| v@) == catalog_ids(),
            forall|k: int| 0 <= k < i ==> entries@[k] == catalog_running(before)[k],
            forall|k: int| i <= k < before.len() ==> entries@[k] == before[k],
        decreases before.len() - i,
    {
        let id = str_to_chars(entries[i].status.vector_id.as_str());
        let mut listed = false;
        let mut c: usize = 0;
        while c < ids.len()
            invariant
                c <= ids@.len(),
                ids@.map_values(|v: Vec<char>| v@) == catalog_ids(),
                listed == ids@.take(c as int).map_values(|v: Vec<char>| v@).contains(id@),
            decreases ids@.len() - c,
        {
            let ghost prev = ids@.take(c as int).map_values(|v: Vec<char>| v@);
            if chars_eq(ids[c].as_slice(), id.as_slice()) {
                listed = true;
            }
            assert(ids@.take(c + 1).map_values(|v: Vec<char>| v@) =~= prev.push(ids@[c as int]@));
            proof {
                let next = prev.push(ids@[c as int]@);
                if listed {
                    if prev.contains(id@) {
                        let w = choose|w: int| 0 <= w < prev.len() && prev[w] == id@;
                        assert(next[w] == id@);
                    } else {
                        assert(next[prev.len() as int] == id@);
                    }
                } else {
                    assert forall|w: int| 0 <= w < next.len() implies next[w] != id@ by {
                        if w < prev.len() {
                            assert(next[w] == prev[w]);
                        }
                    }
                }
            }
            c = c + 1;
        }
        assert(ids@.take(ids@.len() as int) =~= ids@);
        if listed {
            let mut e = VectorEntry {
                status: entries[i].status.duplicate(),
                last_published_total_operations: entries[i].last_published_total_operations,
            };
            e.status.state = StressVectorState::Running;
            entries.set(i, e);
        }
        i = i + 1;
    }
    proof {
        assert(entries@ =~= catalog_running(before));
        assert forall|a: int, b: int| 0 <= a < b < entries@.len() implies lex_lt(
            entry_id(#[trigger] entries@[a]),
            entry_id(#[trigger] entries@[b]),
        ) by {
            assert(entry_id(entries@[a]) == entry_id(before[a]));
            assert(entry_id(entries@[b]) == entry_id(before[b]));
        }
    }
}

fn mark_completed(entries: &mut Vec<VectorEntry>)
    requires
        sorted_by_id(old(entries)@),
    ensures
        sorted_by_id(final(entries)@),
        final(entries)@ == old(entries)@.map_values(|e: VectorEntry| completed(e)),
{
    let ghost before = entries@;
    let mut i: usize = 0;
    while i < entries.len()
        invariant
            i <= before.len(),
            entries@.len() == before.len(),
            forall|k: int| 0 <= k < i ==> entries@[k] == completed(before[k]),
            forall|k: int| i <= k < before.len() ==> entries@[k] == before[k],
        decreases before.len() - i,
    {
        if entries[i].status.state != StressVectorState::Failed {
            let mut e = VectorEntry {
                status: entries[i].status.duplicate(),
                last_published_total_operations: entries[i].last_published_total_operations,
            };
            e.status.state = StressVectorState::Completed;
            entries.set(i, e);
        }
        i = i + 1;
    }
    proof {
        assert(entries@ =~= before.map_values(|e: VectorEntry| completed(e)));
        assert forall|a: int, b: int| 0 <= a < b < entries@.len() implies lex_lt(
            entry_id(#[trigger] entries@[a]),
            entry_id(#[trigger] entries@[b]),
        ) by {
            assert(entry_id(entries@[a]) == entry_id(before[a]));
            assert(entry_id(entries@[b]) == entry_id(before[b]));
        }
    }
}

/// The run ledger behind the stress dashboard.
///
/// The vectors and the sampled processes are kept as vectors sorted by id
/// (`sorted_by_id`, `slots_sorted`), not as maps keyed by `String`: walking
/// them gives the id order a `BTreeMap` walk gives, and every lookup,
/// insertion and update is proved against that order. vstd's
/// specifications of `HashMap` and `BTreeMap` say what a call does only for
/// key types known to follow its key model (`obeys_key_model`,
/// `key_obeys_cmp_spec`), which vstd establishes for integer keys and not
/// for `String`.
pub struct HarnessState {
    snapshot: RunSnapshot,
    vectors: Vec<VectorEntry>,
    processes: Vec<ProcessSlot>,
    events: VecDeque<LogEntry>,
    recent_event_limit: usize,
    last_publish_instant: Instant,
    last_published_total_operations: u64,
}

impl HarnessState {
    /// The run as last recorded (its lists as of the last publish).
    pub closed spec fn run(&self) -> RunSnapshot {
        self.snapshot
    }

    /// The vector entries, in id order.
    pub closed spec fn entries(&self) -> Seq<VectorEntry> {
        self.vectors@
    }

    /// The latest process samples, in name order.
    pub closed spec fn process_slots(&self) -> Seq<ProcessSlot> {
        self.processes@
    }

    /// The recent event log, oldest first.
    pub closed spec fn event_log(&self) -> Seq<LogEntry> {
        self.events@
    }

    /// How many events the log keeps.
    pub closed spec fn event_limit(&self) -> nat {
        self.recent_event_limit as nat
    }

    /// The monotonic clock's reading at the last publish.
    pub closed spec fn last_publish(&self) -> Instant {
        self.last_publish_instant
    }

    /// The run's operation count at the last publish.
    pub closed spec fn published_total(&self) -> u64 {
        self.last_published_total_operations
    }

    /// Entries sorted by id, slots by name, and the log within its limit.
    pub closed spec fn wf(&self) -> bool {
        &&& sorted_by_id(self.vectors@)
        &&& slots_sorted(self.processes@)
        &&& 1 <= self.recent_event_limit
        &&& self.events@.len() <= self.recent_event_limit
    }

    /// An idle ledger: status `Idle`, no vectors, processes or events, and
    /// a log of 50 entries.
    pub fn new() -> (h: Self)
        ensures
            h.wf(),
            h.run().state == StressRunState::Idle,
            h.run().status_message@ == "Idle"@,
            h.run().total_operations == 0,
            h.run().error_count == 0,
            h.run().internal_error_count == 0,
            h.run().vector_statuses@.len() == 0,
            h.entries().len() == 0,
            h.process_slots().len() == 0,
            h.event_log().len() == 0,
            h.event_limit() == 50,
            h.published_total() == 0,
    {
        let h = HarnessState {
            snapshot: RunSnapshot::idle("Idle".to_owned()),
            vectors: Vec::new(),
            processes: Vec::new(),
            events: VecDeque::new(),
            recent_event_limit: 50,
            last_publish_instant: instant_now(),
            last_published_total_operations: 0,
        };
        h
    }

    /// The run as last recorded.
    pub fn snapshot(&self) -> (r: &RunSnapshot)
        ensures
            *r == self.run(),
    {
        &self.snapshot
    }

    fn find_entry(&self, id: &[char]) -> (r: Option<usize>)
        ensures
            match r {
                Some(i) => find_id(self.entries(), id@, 0) == i,
                None => find_id(self.entries(), id@, 0) == -1,
            },
    {
        let mut i: usize = 0;
        while i < self.vectors.len()
            invariant
                i <= self.vectors@.len(),
                find_id(self.entries(), id@, 0) == find_id(self.entries(), id@, i as int),
            decreases self.vectors@.len() - i,
        {
            let key = str_to_chars(self.vectors[i].status.vector_id.as_str());
            if crate::snapshot::chars_eq(key.as_slice(), id) {
                return Some(i);
            }
            i = i + 1;
        }
        None
    }

    fn entry_slot(&self, id: &[char]) -> (r: usize)
        ensures
            r == slot_for(self.entries(), id@, 0),
    {
        let mut i: usize = 0;
        while i < self.vectors.len()
            invariant
                i <= self.vectors@.len(),
                slot_for(self.entries(), id@, 0) == slot_for(self.entries(), id@, i as int),
            decreases self.vectors@.len() - i,
        {
            let key = str_to_chars(self.vectors[i].status.vector_id.as_str());
            if compare_chars(key.as_slice(), id) >= 0 {
                return i;
            }
            i = i + 1;
        }
        i
    }

    /// The status of vector `vector_id`, if it is registered.
    pub fn vector_status(&self, vector_id: &str) -> (r: Option<VectorStatus>)
        ensures
            find_id(self.entries(), vector_id@, 0) == -1 ==> r.is_none(),
            find_id(self.entries(), vector_id@, 0) != -1 ==> r == Some(
                self.entries()[find_id(self.entries(), vector_id@, 0)].status,
            ),
    {
        let id = str_to_chars(vector_id);
        proof {
            lemma_find_id(self.entries(), id@, 0);
        }
        match self.find_entry(id.as_slice()) {
            Some(i) => Some(self.vectors[i].status.duplicate()),
            None => None,
        }
    }

    fn record_attempt_at(&mut self, vector_id: &str, sample: String, at: Option<Timestamp>)
        requires
            old(self).wf(),
        ensures
            final(self).wf(),
            final(self).run() == (RunSnapshot {
                total_operations: sat_inc(old(self).run().total_operations),
                ..old(self).run()
            }),
            final(self).process_slots() == old(self).process_slots(),
            final(self).event_log() == old(self).event_log(),
            final(self).event_limit() == old(self).event_limit(),
            final(self).published_total() == old(self).published_total(),
            ({
                let p = find_id(old(self).entries(), vector_id@, 0);
                if p == -1 {
                    final(self).entries() == old(self).entries()
                } else {
                    final(self).entries() == old(self).entries().update(
                        p,
                        attempted(old(self).entries()[p], sample, at),
                    )
                }
            }),
    {
        let t = self.snapshot.total_operations;
        self.snapshot.total_operations = if t == u64::MAX {
            t
        } else {
            t + 1
        };
        let id = str_to_chars(vector_id);
        proof {
            lemma_find_id(self.entries(), id@, 0);
        }
        match self.find_entry(id.as_slice()) {
            Some(i) => {
                let mut e = VectorEntry {
                    status: self.vectors[i].status.duplicate(),
                    last_published_total_operations: self.vectors[i].last_published_total_operations,
                };
                let n = e.status.total_operations;
                e.status.total_operations = if n == u64::MAX {
                    n
                } else {
                    n + 1
                };
                e.status.last_sample_input = Some(sample);
                e.status.last_activity_utc = at;
                if e.status.state != StressVectorState::Failed {
                    e.status.state = StressVectorState::Running;
                }
                let ghost ge = e;
                self.vectors.set(i, e);
                proof {
                    let old_e = old(self).entries();
                    assert(ge == attempted(old_e[i as int], sample, at));
                    assert forall|a: int, b: int|
                        0 <= a < b < self.vectors@.len() implies lex_lt(
                        entry_id(#[trigger] self.vectors@[a]),
                        entry_id(#[trigger] self.vectors@[b]),
                    ) by {
                        assert(entry_id(self.vectors@[a]) == entry_id(old_e[a]));
                        assert(entry_id(self.vectors@[b]) == entry_id(old_e[b]));
                    }
                    assert(self.entries() =~= old_e.update(i as int, ge));
                }
            },
            None => {},
        }
    }

    /// Counts one attempt of vector `vector_id` with input `sample`: the run
    /// and the vector each count one more operation, and the vector records
    /// the input and the time and becomes running unless it has failed.
    pub fn record_attempt(&mut self, vector_id: &str, sample: String)
        requires
            old(self).wf(),
        ensures
            final(self).wf(),
            final(self).run() == (RunSnapshot {
                total_operations: sat_inc(old(self).run().total_operations),
                ..old(self).run()
            }),
            final(self).process_slots() == old(self).process_slots(),
            final(self).event_log() == old(self).event_log(),
            final(self).event_limit() == old(self).event_limit(),
            final(self).published_total() == old(self).published_total(),
            ({
                let p = find_id(old(self).entries(), vector_id@, 0);
                if p == -1 {
                    final(self).entries() == old(self).entries()
                } else {
                    &&& final(self).entries() == old(self).entries().update(
                        p,
                        attempted(
                            old(self).entries()[p],
                            sample,
                            final(self).entries()[p].status.last_activity_utc,
                        ),
                    )
                    &&& final(self).entries()[p].status.last_activity_utc matches Some(t) ==> 0
                        <= t.seconds && 0 <= t.nanos < 1_000_000_000
                }
            }),
    {
        let at = timestamp_now();
        proof {
            lemma_find_id(self.entries(), vector_id@, 0);
        }
        self.record_attempt_at(vector_id, sample, at);
        proof {
            let p = find_id(old(self).entries(), vector_id@, 0);
            if p != -1 {
                assert(self.entries()[p] == attempted(old(self).entries()[p], sample, at));
            }
        }
    }

    /// A successful operation of vector `vector_id`: counted as an attempt.
    pub fn record_operation(&mut self, vector_id: &str, sample: String)
        requires
            old(self).wf(),
        ensures
            final(self).wf(),
            final(self).run() == (RunSnapshot {
                total_operations: sat_inc(old(self).run().total_operations),
                ..old(self).run()
            }),
            final(self).process_slots() == old(self).process_slots(),
            final(self).event_log() == old(self).event_log(),
            final(self).event_limit() == old(self).event_limit(),
            final(self).published_total() == old(self).published_total(),
            ({
                let p = find_id(old(self).entries(), vector_id@, 0);
                if p == -1 {
                    final(self).entries() == old(self).entries()
                } else {
                    &&& final(self).entries() == old(self).entries().update(
                        p,
                        attempted(
                            old(self).entries()[p],
                            sample,
                            final(self).entries()[p].status.last_activity_utc,
                        ),
                    )
                    &&& final(self).entries()[p].status.last_activity_utc matches Some(t) ==> 0
                        <= t.seconds && 0 <= t.nanos < 1_000_000_000
                }
            }),
    {
        self.record_attempt(vector_id, sample);
    }

    /// A failed operation of vector `vector_id`: counted as an attempt and
    /// as an error (and as an internal error when `internal`), with the
    /// error message kept on the vector.
    pub fn record_error(&mut self, vector_id: &str, sample: String, message: String, internal: bool)
        requires
            old(self).wf(),
        ensures
            final(self).wf(),
            final(self).run() == (RunSnapshot {
                total_operations: sat_inc(old(self).run().total_operations),
                error_count: sat_inc(old(self).run().error_count),
                internal_error_count: if internal {
                    sat_inc(old(self).run().internal_error_count)
                } else {
                    old(self).run().internal_error_count
                },
                ..old(self).run()
            }),
            final(self).process_slots() == old(self).process_slots(),
            final(self).event_log() == old(self).event_log(),
            final(self).event_limit() == old(self).event_limit(),
            final(self).published_total() == old(self).published_total(),
            ({
                let p = find_id(old(self).entries(), vector_id@, 0);
                if p == -1 {
                    final(self).entries() == old(self).entries()
                } else {
                    &&& final(self).entries() == old(self).entries().update(
                        p,
                        failed(
                            attempted(
                                old(self).entries()[p],
                                sample,
                                final(self).entries()[p].status.last_activity_utc,
                            ),
                            message,
                            internal,
                        ),
                    )
                    &&& final(self).entries()[p].status.last_activity_utc matches Some(t) ==> 0
                        <= t.seconds && 0 <= t.nanos < 1_000_000_000
                }
            }),
    {
        let at = timestamp_now();
        let ghost s0 = sample;
        self.record_attempt_at(vector_id, sample, at);
        let e = self.snapshot.error_count;
        self.snapshot.error_count = if e == u64::MAX {
            e
        } else {
            e + 1
        };
        if internal {
            let ie = self.snapshot.internal_error_count;
            self.snapshot.internal_error_count = if ie == u64::MAX {
                ie
            } else {
                ie + 1
            };
        }
        let id = str_to_chars(vector_id);
        proof {
            lemma_find_id(self.entries(), id@, 0);
            lemma_find_id(old(self).entries(), id@, 0);
            if find_id(old(self).entries(), id@, 0) != -1 {
                let p = find_id(old(self).entries(), id@, 0);
                assert(entry_id(self.entries()[p]) == entry_id(old(self).entries()[p]));
                assert forall|k: int| 0 <= k < p implies entry_id(#[trigger] self.entries()[k])
                    != id@ by {
                    assert(self.entries()[k] == old(self).entries()[k]);
                }
                lemma_find_prefix(self.entries(), id@, p);
            } else {
                assert(self.entries() == old(self).entries());
            }
        }
        match self.find_entry(id.as_slice()) {
            Some(i) => {
                let mut e = VectorEntry {
                    status: self.vectors[i].status.duplicate(),
                    last_published_total_operations: self.vectors[i].last_published_total_operations,
                };
                let ec = e.status.error_count;
                e.status.error_count = if ec == u64::MAX {
                    ec
                } else {
                    ec + 1
                };
                if internal {
                    let iec = e.status.internal_error_count;
                    e.status.internal_error_count = if iec == u64::MAX {
                        iec
                    } else {
                        iec + 1
                    };
                }
                e.status.last_error_message = Some(message.clone());
                let ghost ge = e;
                let ghost mid = self.entries();
                self.vectors.set(i, e);
                proof {
                    assert(ge == failed(mid[i as int], message, internal));
                    assert forall|a: int, b: int|
                        0 <= a < b < self.vectors@.len() implies lex_lt(
                        entry_id(#[trigger] self.vectors@[a]),
                        entry_id(#[trigger] self.vectors@[b]),
                    ) by {
                        assert(entry_id(self.vectors@[a]) == entry_id(mid[a]));
                        assert(entry_id(self.vectors@[b]) == entry_id(mid[b]));
                    }
                    let old_e = old(self).entries();
                    assert(self.entries() =~= old_e.update(
                        i as int,
                        failed(attempted(old_e[i as int], s0, at), message, internal),
                    ));
                }
            },
            None => {},
        }
    }

    /// Moves the run to `state` with `message`; a completed, failed or
    /// stopped run also records when it ended.
    pub fn set_state(&mut self, state: StressRunState, message: String)
        requires
            old(self).wf(),
        ensures
            final(self).wf(),
            final(self).entries() == old(self).entries(),
            final(self).process_slots() == old(self).process_slots(),
            final(self).event_log() == old(self).event_log(),
            final(self).event_limit() == old(self).event_limit(),
            final(self).published_total() == old(self).published_total(),
            final(self).run().state == state,
            final(self).run().status_message == message,
            !is_terminal(state) ==> final(self).run() == (RunSnapshot {
                state,
                status_message: message,
                ..old(self).run()
            }),
            is_terminal(state) ==> final(self).run() == (RunSnapshot {
                state,
                status_message: message,
                ended_at_utc: final(self).run().ended_at_utc,
                ..old(self).run()
            }),
            is_terminal(state) ==> (final(self).run().ended_at_utc matches Some(t) ==> 0
                <= t.seconds && 0 <= t.nanos < 1_000_000_000),
    {
        self.snapshot.state = state;
        self.snapshot.status_message = message;
        if state == StressRunState::Completed || state == StressRunState::Failed || state
            == StressRunState::Stopped {
            let at = timestamp_now();
            self.snapshot.ended_at_utc = at;
            assert(self.run() == (RunSnapshot {
                state,
                status_message: message,
                ended_at_utc: at,
                ..old(self).run()
            }));
        }
    }

    /// Sets the state of vector `vector_id`, if it is registered.
    pub fn set_vector_state(&mut self, vector_id: &str, state: StressVectorState)
        requires
            old(self).wf(),
        ensures
            final(self).wf(),
            final(self).run() == old(self).run(),
            final(self).process_slots() == old(self).process_slots(),
            final(self).event_log() == old(self).event_log(),
            final(self).event_limit() == old(self).event_limit(),
            final(self).published_total() == old(self).published_total(),
            ({
                let p = find_id(old(self).entries(), vector_id@, 0);
                if p == -1 {
                    final(self).entries() == old(self).entries()
                } else {
                    final(self).entries() == old(self).entries().update(
                        p,
                        VectorEntry {
                            status: VectorStatus { state, ..old(self).entries()[p].status },
                            ..old(self).entries()[p]
                        },
                    )
                }
            }),
    {
        let id = str_to_chars(vector_id);
        proof {
            lemma_find_id(self.entries(), id@, 0);
        }
        match self.find_entry(id.as_slice()) {
            Some(i) => {
                let mut e = VectorEntry {
                    status: self.vectors[i].status.duplicate(),
                    last_published_total_operations: self.vectors[i].last_published_total_operations,
                };
                e.status.state = state;
                let ghost ge = e;
                self.vectors.set(i, e);
                proof {
                    let old_e = old(self).entries();
                    assert forall|a: int, b: int|
                        0 <= a < b < self.vectors@.len() implies lex_lt(
                        entry_id(#[trigger] self.vectors@[a]),
                        entry_id(#[trigger] self.vectors@[b]),
                    ) by {
                        assert(entry_id(self.vectors@[a]) == entry_id(old_e[a]));
                        assert(entry_id(self.vectors@[b]) == entry_id(old_e[b]));
                    }
                    assert(self.entries() =~= old_e.update(i as int, ge));
                }
            },
            None => {},
        }
    }

    fn find_process(&self, name: &[char]) -> (r: Option<usize>)
        ensures
            match r {
                Some(i) => find_slot(self.process_slots(), name@, 0) == i,
                None => find_slot(self.process_slots(), name@, 0) == -1,
            },
    {
        let mut i: usize = 0;
        while i < self.processes.len()
            invariant
                i <= self.processes@.len(),
                find_slot(self.process_slots(), name@, 0) == find_slot(
                    self.process_slots(),
                    name@,
                    i as int,
                ),
            decreases self.processes@.len() - i,
        {
            let key = str_to_chars(self.processes[i].name.as_str());
            if crate::snapshot::chars_eq(key.as_slice(), name) {
                return Some(i);
            }
            i = i + 1;
        }
        None
    }

    fn process_position(&self, name: &[char]) -> (r: usize)
        ensures
            r == slot_position(self.process_slots(), name@, 0),
    {
        let mut i: usize = 0;
        while i < self.processes.len()
            invariant
                i <= self.processes@.len(),
                slot_position(self.process_slots(), name@, 0) == slot_position(
                    self.process_slots(),
                    name@,
                    i as int,
                ),
            decreases self.processes@.len() - i,
        {
            let key = str_to_chars(self.processes[i].name.as_str());
            if compare_chars(key.as_slice(), name) >= 0 {
                return i;
            }
            i = i + 1;
        }
        i
    }

    /// Files the latest sample of process `process_name`, replacing any
    /// earlier one.
    pub fn update_process(&mut self, process_name: &str, metrics: ProcessMetrics)
        requires
            old(self).wf(),
        ensures
            final(self).wf(),
            final(self).run() == old(self).run(),
            final(self).entries() == old(self).entries(),
            final(self).event_log() == old(self).event_log(),
            final(self).event_limit() == old(self).event_limit(),
            final(self).published_total() == old(self).published_total(),
            ({
                let p = find_slot(old(self).process_slots(), process_name@, 0);
                let q = slot_position(old(self).process_slots(), process_name@, 0);
                let s = final(self).process_slots();
                if p != -1 {
                    &&& s[p].name@ == process_name@
                    &&& s[p].metrics == metrics
                    &&& s == old(self).process_slots().update(p, s[p])
                } else {
                    &&& s[q].name@ == process_name@
                    &&& s[q].metrics == metrics
                    &&& s == old(self).process_slots().insert(q, s[q])
                }
            }),
    {
        let name = str_to_chars(process_name);
        let slot = ProcessSlot { name: process_name.to_owned(), metrics };
        let ghost gs = slot;
        proof {
            lemma_find_slot(self.process_slots(), name@, 0);
        }
        match self.find_process(name.as_slice()) {
            Some(i) => {
                self.processes.set(i, slot);
                proof {
                    let old_p = old(self).process_slots();
                    assert forall|a: int, b: int|
                        0 <= a < b < self.processes@.len() implies lex_lt(
                        (#[trigger] self.processes@[a]).name@,
                        (#[trigger] self.processes@[b]).name@,
                    ) by {
                        assert(self.processes@[a].name@ == old_p[a].name@);
                        assert(self.processes@[b].name@ == old_p[b].name@);
                    }
                    assert(self.process_slots() =~= old_p.update(i as int, gs));
                }
            },
            None => {
                let q = self.process_position(name.as_slice());
                proof {
                    lemma_slot_position(self.process_slots(), name@, 0);
                    lemma_insert_slot_sorted(self.process_slots(), gs);
                }
                self.processes.insert(q, slot);
                assert(self.process_slots() =~= old(self).process_slots().insert(q as int, gs));
            },
        }
    }

    /// Appends an event to the log, dropping the oldest beyond the limit.
    pub fn push_event(&mut self, level: StressLogLevel, message: String, vector_id: Option<&str>)
        requires
            old(self).wf(),
        ensures
            final(self).wf(),
            final(self).run() == old(self).run(),
            final(self).entries() == old(self).entries(),
            final(self).process_slots() == old(self).process_slots(),
            final(self).event_limit() == old(self).event_limit(),
            final(self).published_total() == old(self).published_total(),
            final(self).event_log().len() > 0,
            final(self).event_log() == log_window(
                old(self).event_log(),
                final(self).event_log().last(),
                old(self).event_limit(),
            ),
            final(self).event_log().last().level == level,
            final(self).event_log().last().message == message,
            match vector_id {
                Some(v) => final(self).event_log().last().vector_id matches Some(s) && s@ == v@,
                None => final(self).event_log().last().vector_id is None,
            },
    {
        let entry = LogEntry {
            occurred_at_utc: timestamp_now(),
            level,
            message,
            vector_id: match vector_id {
                Some(v) => Some(v.to_owned()),
                None => None,
            },
        };
        let ghost ge = entry;
        let ghost before = self.event_log();
        self.events.push_back(entry);
        assert(self.event_log() =~= before.push(ge));
        let ghost w = before.push(ge);
        if self.events.len() > self.recent_event_limit {
            self.events.pop_front();
            assert(self.events@ =~= w.skip(w.len() - self.recent_event_limit));
        }
        proof {
            if w.len() <= self.recent_event_limit {
                assert(self.events@ =~= w);
            }
            assert(self.event_log() == log_window(before, ge, self.event_limit()));
            assert(self.event_log().last() == ge);
        }
    }

    /// Registers (or re-registers, resetting it) vector `vector_id` as idle.
    pub fn register_vector(&mut self, vector_id: &str, display_name: &str)
        requires
            old(self).wf(),
        ensures
            final(self).wf(),
            final(self).run() == old(self).run(),
            final(self).process_slots() == old(self).process_slots(),
            final(self).event_log() == old(self).event_log(),
            final(self).event_limit() == old(self).event_limit(),
            final(self).published_total() == old(self).published_total(),
            ({
                let p = find_id(old(self).entries(), vector_id@, 0);
                let q = slot_for(old(self).entries(), vector_id@, 0);
                if p != -1 {
                    &&& is_fresh(final(self).entries()[p], vector_id@, display_name@)
                    &&& final(self).entries() == old(self).entries().update(
                        p,
                        final(self).entries()[p],
                    )
                } else {
                    &&& is_fresh(final(self).entries()[q], vector_id@, display_name@)
                    &&& final(self).entries() == old(self).entries().insert(
                        q,
                        final(self).entries()[q],
                    )
                }
            }),
    {
        let id = str_to_chars(vector_id);
        let entry = VectorEntry {
            status: VectorStatus {
                vector_id: vector_id.to_owned(),
                display_name: display_name.to_owned(),
                state: StressVectorState::Idle,
                total_operations: 0,
                error_count: 0,
                internal_error_count: 0,
                last_sample_input: None,
                last_error_message: None,
                last_activity_utc: None,
                operations_rate: OperationRate { operations: 0, elapsed_nanos: 0 },
            },
            last_published_total_operations: 0,
        };
        let ghost e = entry;
        proof {
            lemma_find_id(self.entries(), id@, 0);
        }
        match self.find_entry(id.as_slice()) {
            Some(i) => {
                self.vectors.set(i, entry);
                proof {
                    let old_e = old(self).entries();
                    assert forall|a: int, b: int|
                        0 <= a < b < self.vectors@.len() implies lex_lt(
                        entry_id(#[trigger] self.vectors@[a]),
                        entry_id(#[trigger] self.vectors@[b]),
                    ) by {
                        assert(entry_id(self.vectors@[a]) == entry_id(old_e[a]));
                        assert(entry_id(self.vectors@[b]) == entry_id(old_e[b]));
                    }
                    assert(self.entries() =~= old_e.update(i as int, e));
                }
            },
            None => {
                let q = self.entry_slot(id.as_slice());
                proof {
                    lemma_slot_for(self.entries(), id@, 0);
                    lemma_insert_sorted(self.entries(), e);
                }
                self.vectors.insert(q, entry);
                assert(self.entries() =~= old(self).entries().insert(q as int, e));
            },
        }
    }

    /// Publishes the run `elapsed_nanos` after the last publish, the
    /// monotonic clock then reading `now`; see `publish_outcome`.
    pub fn publish_after(&mut self, now: Instant, elapsed_nanos: u128) -> (r: RunSnapshot)
        requires
            old(self).wf(),
        ensures
            old(self).publish_outcome(*final(self), r, now, elapsed_nanos),
    {
        if elapsed_nanos > 0 {
            let total = self.snapshot.total_operations;
            let last = self.last_published_total_operations;
            self.snapshot.operations_rate = OperationRate {
                operations: if total >= last {
                    total - last
                } else {
                    0
                },
                elapsed_nanos,
            };
            self.last_published_total_operations = total;
            publish_entries(&mut self.vectors, elapsed_nanos);
            self.last_publish_instant = now;
        }
        self.snapshot.vector_statuses = statuses_of_entries(&self.vectors);
        self.snapshot.processes = metrics_of_slots(&self.processes);
        self.snapshot.recent_events = events_in_order(&self.events);
        self.snapshot.duplicate()
    }

    /// Publishes the run now: reads the monotonic clock and publishes with
    /// the time since the last publish by that clock.
    pub fn publish_snapshot(&mut self) -> (r: RunSnapshot)
        requires
            old(self).wf(),
        ensures
            exists|now: Instant, elapsed: u128|
                #[trigger] old(self).publish_outcome(*final(self), r, now, elapsed),
    {
        let now = instant_now();
        let elapsed = nanos_between(&self.last_publish_instant, &now);
        let r = self.publish_after(now, elapsed);
        assert(old(self).publish_outcome(*self, r, now, elapsed));
        r
    }

    /// Starts a new run of profile `profile_name` under `configuration`:
    /// a fresh run id, state `Starting`, the start time, no vectors,
    /// processes or events, and a log of `recent_event_limit` entries (50
    /// where that is 0).
    pub fn reset_run(&mut self, profile_name: &str, configuration: &RunConfiguration)
        requires
            old(self).wf(),
        ensures
            final(self).wf(),
            is_v4_uuid_text(final(self).run().run_id@),
            final(self).run().state == StressRunState::Starting,
            final(self).run().active_profile_name@ == profile_name@,
            final(self).run().configuration == Some(*configuration),
            final(self).run().started_at_utc matches Some(t) ==> 0 <= t.seconds && 0 <= t.nanos
                < 1_000_000_000,
            final(self).run().ended_at_utc.is_none(),
            final(self).run().status_message@ == "Starting stress run."@,
            final(self).run().total_operations == 0,
            final(self).run().error_count == 0,
            final(self).run().internal_error_count == 0,
            final(self).run().operations_rate == (OperationRate { operations: 0, elapsed_nanos: 0 }),
            final(self).run().vector_statuses@.len() == 0,
            final(self).run().processes@.len() == 0,
            final(self).run().recent_events@.len() == 0,
            final(self).entries().len() == 0,
            final(self).process_slots().len() == 0,
            final(self).event_log().len() == 0,
            final(self).event_limit() == (if configuration.recent_event_limit == 0 {
                50
            } else {
                configuration.recent_event_limit as nat
            }),
            final(self).published_total() == 0,
    {
        let started = timestamp_now();
        let message = "Starting stress run.".to_owned();
        proof {
            reveal_strlit("Starting stress run.");
        }
        self.snapshot = RunSnapshot {
            run_id: new_run_id(),
            state: StressRunState::Starting,
            active_profile_name: profile_name.to_owned(),
            configuration: Some(configuration.duplicate()),
            started_at_utc: started,
            ended_at_utc: None,
            status_message: message,
            total_operations: 0,
            error_count: 0,
            internal_error_count: 0,
            operations_rate: OperationRate { operations: 0, elapsed_nanos: 0 },
            vector_statuses: Vec::new(),
            processes: Vec::new(),
            recent_events: Vec::new(),
        };
        self.vectors.clear();
        self.processes.clear();
        self.events.clear();
        self.recent_event_limit = if configuration.recent_event_limit == 0 {
            50
        } else {
            configuration.recent_event_limit as usize
        };
        self.last_publish_instant = instant_now();
        self.last_published_total_operations = 0;
    }

    /// What a publish `elapsed` nanoseconds after the last one, the clock
    /// reading `now`, leaves behind in `after` and returns as `r`: where time
    /// has passed, the clock reading is remembered and the run and each
    /// vector take the operations counted since the last publish, over that
    /// time, as their rate, and remember their present counts; the run then
    /// lists every vector's status in id order, every process sample in name
    /// order and the event log, and `r` is a copy of it.
    pub open spec fn publish_outcome(
        self,
        after: Self,
        r: RunSnapshot,
        now: Instant,
        elapsed: u128,
    ) -> bool {
        let before = self.run();
        &&& after.wf()
        &&& after.last_publish() == (if elapsed > 0 {
            now
        } else {
            self.last_publish()
        })
        &&& after.entries() == (if elapsed > 0 {
            self.entries().map_values(|e: VectorEntry| published(e, elapsed))
        } else {
            self.entries()
        })
        &&& after.published_total() == (if elapsed > 0 {
            before.total_operations
        } else {
            self.published_total()
        })
        &&& after.run() == (RunSnapshot {
            operations_rate: if elapsed > 0 {
                OperationRate {
                    operations: sat_diff(before.total_operations, self.published_total()),
                    elapsed_nanos: elapsed,
                }
            } else {
                before.operations_rate
            },
            vector_statuses: after.run().vector_statuses,
            processes: after.run().processes,
            recent_events: after.run().recent_events,
            ..before
        })
        &&& after.run().vector_statuses@ == statuses_of(after.entries())
        &&& after.run().processes@ == metrics_of(after.process_slots())
        &&& after.run().recent_events@ == after.event_log()
        &&& after.process_slots() == self.process_slots()
        &&& after.event_log() == self.event_log()
        &&& after.event_limit() == self.event_limit()
        &&& same_snapshot(r, after.run())
    }

    fn register_all(&mut self, vectors: &Vec<(String, String)>)
        requires
            old(self).wf(),
            old(self).entries().len() == 0,
            ids_distinct(pair_views(vectors@)),
        ensures
            final(self).wf(),
            fresh_for(final(self).entries(), pair_views(vectors@)),
            final(self).run() == old(self).run(),
            final(self).process_slots() == old(self).process_slots(),
            final(self).event_log() == old(self).event_log(),
            final(self).event_limit() == old(self).event_limit(),
            final(self).published_total() == old(self).published_total(),
    {
        let ghost pv = pair_views(vectors@);
        let mut j: usize = 0;
        assert(fresh_for(self.entries(), pv.take(0)));
        while j < vectors.len()
            invariant
                self.wf(),
                j <= vectors@.len(),
                pv == pair_views(vectors@),
                ids_distinct(pv),
                fresh_for(self.entries(), pv.take(j as int)),
                self.run() == old(self).run(),
                self.process_slots() == old(self).process_slots(),
                self.event_log() == old(self).event_log(),
                self.event_limit() == old(self).event_limit(),
                self.published_total() == old(self).published_total(),
            decreases vectors@.len() - j,
        {
            let ghost before = self.entries();
            proof {
                lemma_new_id_absent(before, pv, j as int);
            }
            self.register_vector(vectors[j].0.as_str(), vectors[j].1.as_str());
            proof {
                let id = pv[j as int].0;
                lemma_slot_for(before, id, 0);
                let q = slot_for(before, id, 0);
                let after = self.entries();
                assert(after == before.insert(q, after[q]));
                lemma_register_step(before, after[q], q, pv, j as int);
            }
            j = j + 1;
        }
        assert(pv.take(vectors@.len() as int) =~= pv);
    }

    /// Starts the session of profile `profile_name` under `configuration`:
    /// resets the run, registers the in-process and gRPC vectors it
    /// includes, fresh and idle, and logs the profile's selection.
    pub fn begin_session(&mut self, profile_name: &str, configuration: &RunConfiguration)
        requires
            old(self).wf(),
        ensures
            final(self).wf(),
            is_v4_uuid_text(final(self).run().run_id@),
            final(self).run().state == StressRunState::Starting,
            final(self).run().active_profile_name@ == profile_name@,
            final(self).run().configuration == Some(*configuration),
            final(self).run().status_message@ == "Starting stress run."@,
            final(self).run().ended_at_utc.is_none(),
            final(self).run().total_operations == 0,
            final(self).run().error_count == 0,
            final(self).run().internal_error_count == 0,
            fresh_for(
                final(self).entries(),
                session_vector_table(
                    configuration.include_core_vectors,
                    configuration.include_grpc_vectors,
                ),
            ),
            final(self).process_slots().len() == 0,
            final(self).event_log().len() == 1,
            final(self).event_log()[0].level == StressLogLevel::Info,
            final(self).event_log()[0].message@ == profile_selected(profile_name@),
            final(self).event_log()[0].vector_id.is_none(),
            final(self).event_limit() == (if configuration.recent_event_limit == 0 {
                50
            } else {
                configuration.recent_event_limit as nat
            }),
            final(self).published_total() == 0,
    {
        self.reset_run(profile_name, configuration);
        let vectors = session_vectors(
            configuration.include_core_vectors,
            configuration.include_grpc_vectors,
        );
        proof {
            crate::stress::lemma_vector_ids_distinct(
                configuration.include_core_vectors,
                configuration.include_grpc_vectors,
            );
        }
        self.register_all(&vectors);
        let mut text = str_to_chars("Profile '");
        let name = str_to_chars(profile_name);
        let tail = str_to_chars("' selected.");
        crate::textual::extend_chars(&mut text, name.as_slice());
        crate::textual::extend_chars(&mut text, tail.as_slice());
        let ghost log_before = self.event_log();
        self.push_event(StressLogLevel::Info, chars_to_string(text.as_slice()), None);
        proof {
            assert(log_before.len() == 0);
            let w = log_before.push(self.event_log().last());
            assert(w.len() == 1);
            assert(self.event_log() == w);
            assert(self.event_log()[0] == self.event_log().last());
        }
    }

    /// Puts the run in motion: state `Running`, the log notes it, and every
    /// catalogued vector is marked running.
    pub fn activate_session(&mut self)
        requires
            old(self).wf(),
        ensures
            final(self).wf(),
            final(self).run() == (RunSnapshot {
                state: StressRunState::Running,
                status_message: final(self).run().status_message,
                ..old(self).run()
            }),
            final(self).run().status_message@ == "Stress run active."@,
            final(self).entries() == catalog_running(old(self).entries()),
            final(self).process_slots() == old(self).process_slots(),
            final(self).event_log() == log_window(
                old(self).event_log(),
                final(self).event_log().last(),
                old(self).event_limit(),
            ),
            final(self).event_log().last().level == StressLogLevel::Info,
            final(self).event_log().last().message@ == "Stress run is active."@,
            final(self).event_log().last().vector_id.is_none(),
            final(self).event_limit() == old(self).event_limit(),
            final(self).published_total() == old(self).published_total(),
    {
        self.set_state(StressRunState::Running, "Stress run active.".to_owned());
        self.push_event(StressLogLevel::Info, "Stress run is active.".to_owned(), None);
        mark_catalog_running(&mut self.vectors);
    }

    /// Closes the run in `final_state`: its closing message becomes the
    /// status and is logged, and every vector that has not failed is marked
    /// completed.
    pub fn finish_session(&mut self, final_state: StressRunState)
        requires
            old(self).wf(),
        ensures
            final(self).wf(),
            final(self).run().state == final_state,
            final(self).run().status_message@ == final_message(final_state),
            !is_terminal(final_state) ==> final(self).run() == (RunSnapshot {
                state: final_state,
                status_message: final(self).run().status_message,
                ..old(self).run()
            }),
            is_terminal(final_state) ==> final(self).run() == (RunSnapshot {
                state: final_state,
                status_message: final(self).run().status_message,
                ended_at_utc: final(self).run().ended_at_utc,
                ..old(self).run()
            }),
            is_terminal(final_state) ==> (final(self).run().ended_at_utc matches Some(t) ==> 0
                <= t.seconds && 0 <= t.nanos < 1_000_000_000),
            final(self).entries() == old(self).entries().map_values(|e: VectorEntry| completed(e)),
            final(self).process_slots() == old(self).process_slots(),
            final(self).event_log() == log_window(
                old(self).event_log(),
                final(self).event_log().last(),
                old(self).event_limit(),
            ),
            final(self).event_log().last().level == StressLogLevel::Info,
            final(self).event_log().last().message@ == final_message(final_state),
            final(self).event_log().last().vector_id.is_none(),
            final(self).event_limit() == old(self).event_limit(),
            final(self).published_total() == old(self).published_total(),
    {
        let message = final_status_message(final_state);
        self.set_state(final_state, message.to_owned());
        self.push_event(StressLogLevel::Info, message.to_owned(), None);
        mark_completed(&mut self.vectors);
    }
}

} // verus!
