//! The rules of the collection history: the database schema version, when a
//! check is due, which executions are kept, the current state of each check,
//! the order of a semantic snapshot, and the time buckets and cutoffs of
//! compaction. Reading and writing the database is the caller's part.
use vstd::prelude::*;

use crate::config::StoreStrategy;
use crate::model::Execution;
use crate::text::{
    chars_equal_str, chars_of, lemma_lex_asymmetric, lemma_lex_irreflexive, lemma_lex_total,
    lemma_lex_transitive, lex_less, lex_lt, push_signed_decimal, same_chars, signed_decimal,
};

verus! {

pub const FIVE_MINUTES_MS: i64 = 5 * 60 * 1000;

pub const ONE_HOUR_MS: i64 = 60 * 60 * 1000;

pub const SEVEN_DAYS_MS: i64 = 7 * 24 * 60 * 60 * 1000;

pub const THIRTY_DAYS_MS: i64 = 30 * 24 * 60 * 60 * 1000;

/// What to do with a database of a given schema version.
#[derive(Debug, Clone, Copy, PartialEq, Eq, Structural)]
pub enum SchemaAction {
    /// A new database: create the schema.
    Migrate,
    /// The current schema: use it as it is.
    Ready,
}

/// Version 0 is a new database and version 1 the current schema; any other
/// version is refused.
pub fn schema_action(version: i64) -> (r: Result<SchemaAction, String>)
    ensures
        version == 0 ==> r == Ok::<SchemaAction, String>(SchemaAction::Migrate),
        version == 1 ==> r == Ok::<SchemaAction, String>(SchemaAction::Ready),
        version != 0 && version != 1 ==> (r matches Err(e) && e@
            == "unsupported database schema version: "@ + signed_decimal(version as int)),
{
    if version == 0 {
        Ok(SchemaAction::Migrate)
    } else if version == 1 {
        Ok(SchemaAction::Ready)
    } else {
        let mut m = String::from_str("unsupported database schema version: ");
        push_signed_decimal(&mut m, version);
        Err(m)
    }
}

/// The stored name of an execution state.
pub open spec fn execution_name_spec(e: Execution) -> Seq<char> {
    match e {
        Execution::Completed => "completed"@,
        Execution::TimedOut => "timed_out"@,
        Execution::SpawnFailed => "spawn_failed"@,
        Execution::InvalidOutput => "invalid_output"@,
    }
}

/// The stored name of an execution state.
pub fn execution_name(execution: Execution) -> (r: &'static str)
    ensures
        r@ == execution_name_spec(execution),
{
    match execution {
        Execution::Completed => "completed",
        Execution::TimedOut => "timed_out",
        Execution::SpawnFailed => "spawn_failed",
        Execution::InvalidOutput => "invalid_output",
    }
}

/// The execution state stored under `name`, if any.
pub fn execution_from_name(name: &str) -> (r: Option<Execution>)
    ensures
        match r {
            Some(e) => execution_name_spec(e) == name@,
            None => forall|e: Execution| execution_name_spec(e) != name@,
        },
{
    let v = chars_of(name);
    if chars_equal_str(&v, "completed") {
        Some(Execution::Completed)
    } else if chars_equal_str(&v, "timed_out") {
        Some(Execution::TimedOut)
    } else if chars_equal_str(&v, "spawn_failed") {
        Some(Execution::SpawnFailed)
    } else if chars_equal_str(&v, "invalid_output") {
        Some(Execution::InvalidOutput)
    } else {
        proof {
            assert forall|e: Execution| execution_name_spec(e) != name@ by {
                match e {
                    Execution::Completed => {},
                    Execution::TimedOut => {},
                    Execution::SpawnFailed => {},
                    Execution::InvalidOutput => {},
                }
            }
        }
        None
    }
}

/// Stored names tell the execution states apart, so a state read back is the
/// state that was written.
pub proof fn law_execution_names_are_distinct(a: Execution, b: Execution)
    ensures
        execution_name_spec(a) == execution_name_spec(b) ==> a == b,
{
    reveal_strlit("completed");
    reveal_strlit("timed_out");
    reveal_strlit("spawn_failed");
    reveal_strlit("invalid_output");
    if execution_name_spec(a) == execution_name_spec(b) && a != b {
        let x = execution_name_spec(a);
        let y = execution_name_spec(b);
        assert(x.len() != y.len() || x[0] != y[0] || x[1] != y[1]);
    }
}

/// `a - b`, saturating at the bounds of `i64` (`i64::saturating_sub`).
pub open spec fn saturating_sub_i64(a: i64, b: i64) -> int {
    if a - b > i64::MAX {
        i64::MAX as int
    } else if a - b < i64::MIN {
        i64::MIN as int
    } else {
        a - b
    }
}

fn saturating_sub(a: i64, b: i64) -> (r: i64)
    ensures
        r == saturating_sub_i64(a, b),
{
    match a.checked_sub(b) {
        Some(d) => d,
        None => if b < 0 {
            i64::MAX
        } else {
            i64::MIN
        },
    }
}

/// The interval in milliseconds as the collector computes it.
pub open spec fn interval_ms(interval_seconds: u64) -> int {
    (interval_seconds as i64) * 1000
}

/// A check is due when it was never attempted, when the clock went back
/// before its last attempt, or when its interval has passed since then.
pub open spec fn is_due_spec(last_attempt: Option<i64>, now_ms: i64, interval_seconds: u64) -> bool {
    match last_attempt {
        None => true,
        Some(last) => now_ms < last || saturating_sub_i64(now_ms, last) >= interval_ms(
            interval_seconds,
        ),
    }
}

/// Whether a check is due.
pub fn is_due(last_attempt: Option<i64>, now_ms: i64, interval_seconds: u64) -> (r: bool)
    requires
        i64::MIN <= interval_ms(interval_seconds) <= i64::MAX,
    ensures
        r == is_due_spec(last_attempt, now_ms, interval_seconds),
{
    match last_attempt {
        None => true,
        Some(last) => now_ms < last || saturating_sub(now_ms, last) >= (interval_seconds as i64)
            * 1000,
    }
}

/// The current state of one check, updated by every execution.
#[derive(Debug)]
pub struct CheckState {
    pub last_attempt_at: i64,
    pub last_success_at: Option<i64>,
    pub last_execution: Execution,
    pub last_error: Option<String>,
    pub last_snapshot: String,
}

/// Whether an execution is kept in the history: always under `Always`; under
/// `OnChange` when its snapshot differs from the last one, or there is none.
pub open spec fn stores_spec(
    strategy: StoreStrategy,
    previous: Option<Seq<char>>,
    snapshot: Seq<char>,
) -> bool {
    strategy == StoreStrategy::Always || previous != Some(snapshot)
}

pub open spec fn previous_snapshot(previous: Option<&CheckState>) -> Option<Seq<char>> {
    match previous {
        Some(s) => Some(s.last_snapshot@),
        None => None,
    }
}

/// The last success after an execution: this one if it completed, otherwise
/// the earlier one.
pub open spec fn last_success_spec(
    previous: Option<i64>,
    execution: Execution,
    observed_at: i64,
) -> Option<i64> {
    if execution == Execution::Completed {
        Some(observed_at)
    } else {
        previous
    }
}

pub open spec fn previous_success(previous: Option<&CheckState>) -> Option<i64> {
    match previous {
        Some(s) => s.last_success_at,
        None => None,
    }
}

/// What recording one execution does: whether it is kept in the history, and
/// the new state of the check.
pub fn record_plan(
    previous: Option<&CheckState>,
    strategy: StoreStrategy,
    execution: Execution,
    error: Option<String>,
    snapshot: String,
    observed_at: i64,
) -> (r: (bool, CheckState))
    ensures
        r.0 == stores_spec(strategy, previous_snapshot(previous), snapshot@),
        r.1.last_attempt_at == observed_at,
        r.1.last_success_at == last_success_spec(
            previous_success(previous),
            execution,
            observed_at,
        ),
        r.1.last_execution == execution,
        r.1.last_error == error,
        r.1.last_snapshot == snapshot,
{
    let store = match strategy {
        StoreStrategy::Always => true,
        StoreStrategy::OnChange => match previous {
            None => true,
            Some(state) => !same_chars(
                &chars_of(state.last_snapshot.as_str()),
                &chars_of(snapshot.as_str()),
            ),
        },
    };
    let last_success_at = if execution == Execution::Completed {
        Some(observed_at)
    } else {
        match previous {
            Some(state) => state.last_success_at,
            None => None,
        }
    };
    (
        store,
        CheckState {
            last_attempt_at: observed_at,
            last_success_at,
            last_execution: execution,
            last_error: error,
            last_snapshot: snapshot,
        },
    )
}

/// A repeated identical result is not kept again under `OnChange`: once an
/// execution with snapshot `s` has been recorded, recording `s` again stores
/// nothing, whatever strategy recorded the first one.
pub proof fn law_on_change_keeps_no_copies(snapshot: Seq<char>)
    ensures
        !stores_spec(StoreStrategy::OnChange, Some(snapshot), snapshot),
{
}

/// The first snapshot of a check is always kept, and a changed snapshot is
/// kept under either strategy.
pub proof fn law_first_and_changed_snapshots_are_kept(
    strategy: StoreStrategy,
    previous: Seq<char>,
    snapshot: Seq<char>,
)
    ensures
        stores_spec(strategy, None, snapshot),
        previous != snapshot ==> stores_spec(strategy, Some(previous), snapshot),
{
}

/// After an attempt at `t`, the check is not due again until its interval has
/// passed, unless the clock goes back before `t`; once the interval has
/// passed it is due.
pub proof fn law_due_after_interval(t: i64, now: i64, interval_seconds: u64)
    requires
        0 <= interval_ms(interval_seconds) <= i64::MAX,
    ensures
        t <= now && now - t < interval_ms(interval_seconds) ==> !is_due_spec(
            Some(t),
            now,
            interval_seconds,
        ),
        t <= now && now - t >= interval_ms(interval_seconds) ==> is_due_spec(
            Some(t),
            now,
            interval_seconds,
        ),
        now < t ==> is_due_spec(Some(t), now, interval_seconds),
{
}

/// A failed execution keeps the time of the last success; a completed one
/// sets it to its own time.
pub proof fn law_last_success(previous: Option<i64>, execution: Execution, observed_at: i64)
    ensures
        execution != Execution::Completed ==> last_success_spec(previous, execution, observed_at)
            == previous,
        execution == Execution::Completed ==> last_success_spec(
            previous,
            execution,
            observed_at,
        ) == Some(observed_at),
{
}

/// Compaction runs at most once an hour, unless the clock went back before
/// its last run.
pub open spec fn compaction_due_spec(last: Option<i64>, now_ms: i64) -> bool {
    match last {
        Some(l) => !(now_ms >= l && now_ms - l < ONE_HOUR_MS),
        None => true,
    }
}

/// Whether compaction is due.
pub fn compaction_due(last: Option<i64>, now_ms: i64) -> (r: bool)
    requires
        match last {
            Some(l) => now_ms >= l ==> now_ms - l <= i64::MAX,
            None => true,
        },
    ensures
        r == compaction_due_spec(last, now_ms),
{
    match last {
        Some(l) => !(now_ms >= l && now_ms - l < ONE_HOUR_MS),
        None => true,
    }
}

/// The start of the bucket of `width` that holds `timestamp` (floor division).
pub open spec fn bucket_start_spec(timestamp: int, width: int) -> int {
    (timestamp / width) * width
}

/// The start of the bucket of `width` that holds `timestamp`.
pub fn bucket_start(timestamp: i64, width: i64) -> (r: i64)
    requires
        width > 0,
        i64::MIN <= bucket_start_spec(timestamp as int, width as int),
    ensures
        r == bucket_start_spec(timestamp as int, width as int),
{
    proof {
        lemma_bucket_bounds(timestamp as int, width as int);
        assert(i64::MIN <= timestamp / width <= i64::MAX) by (nonlinear_arith)
            requires
                width > 0,
                (timestamp / width) * width <= timestamp,
                i64::MIN <= (timestamp / width) * width,
                i64::MIN <= timestamp <= i64::MAX,
        ;
    }
    let q = timestamp.checked_div_euclid(width).unwrap();
    proof {
        assert(i64::MIN <= q * width <= i64::MAX);
    }
    q * width
}

/// A bucket holds its timestamp and is aligned to its width.
pub proof fn lemma_bucket_bounds(t: int, w: int)
    requires
        w > 0,
    ensures
        bucket_start_spec(t, w) <= t < bucket_start_spec(t, w) + w,
        bucket_start_spec(t, w) % w == 0,
{
    vstd::arithmetic::div_mod::lemma_fundamental_div_mod(t, w);
    vstd::arithmetic::div_mod::lemma_mod_bound(t, w);
    vstd::arithmetic::div_mod::lemma_mod_multiples_basic(t / w, w);
    assert(w * (t / w) == (t / w) * w) by (nonlinear_arith);
}

/// Buckets nest: the bucket of width `w * k` that holds the start of a bucket
/// of width `w` is the one that holds every timestamp of it. Five-minute
/// rollups therefore compact into the same hours as their raw samples, and a
/// bucket start is its own bucket.
pub proof fn law_buckets_nest(t: int, w: int, k: int)
    requires
        w > 0,
        k > 0,
    ensures
        bucket_start_spec(bucket_start_spec(t, w), w * k) == bucket_start_spec(t, w * k),
        bucket_start_spec(bucket_start_spec(t, w), w) == bucket_start_spec(t, w),
{
    let d = w * k;
    assert(d > 0) by (nonlinear_arith)
        requires
            w > 0,
            k > 0,
            d == w * k,
    ;
    let big_q = t / d;
    let big_r = t % d;
    vstd::arithmetic::div_mod::lemma_fundamental_div_mod(t, d);
    vstd::arithmetic::div_mod::lemma_mod_bound(t, d);
    let s = big_r / w;
    let u = big_r % w;
    vstd::arithmetic::div_mod::lemma_fundamental_div_mod(big_r, w);
    vstd::arithmetic::div_mod::lemma_mod_bound(big_r, w);
    assert(0 <= s < k) by (nonlinear_arith)
        requires
            0 <= big_r < d,
            d == w * k,
            big_r == w * s + u,
            0 <= u < w,
            w > 0,
    ;
    assert(t == (big_q * k + s) * w + u) by (nonlinear_arith)
        requires
            t == d * big_q + big_r,
            d == w * k,
            big_r == w * s + u,
    ;
    vstd::arithmetic::div_mod::lemma_fundamental_div_mod_converse(t, w, big_q * k + s, u);
    let b = bucket_start_spec(t, w);
    assert(b == big_q * d + s * w) by (nonlinear_arith)
        requires
            b == (big_q * k + s) * w,
            d == w * k,
    ;
    assert(0 <= s * w < d) by (nonlinear_arith)
        requires
            0 <= s < k,
            w > 0,
            d == w * k,
    ;
    vstd::arithmetic::div_mod::lemma_fundamental_div_mod_converse(b, d, big_q, s * w);
    assert(big_q == t / d) by {
        vstd::arithmetic::div_mod::lemma_fundamental_div_mod_converse(t, d, big_q, big_r);
    }
    assert(b == (big_q * k + s) * w + 0);
    vstd::arithmetic::div_mod::lemma_fundamental_div_mod_converse(b, w, big_q * k + s, 0);
}

/// Raw samples observed before this time are compacted into five-minute
/// rollups: the five-minute bucket that starts the last seven days.
pub open spec fn raw_cutoff_spec(now_ms: int) -> int {
    bucket_start_spec(now_ms - SEVEN_DAYS_MS, FIVE_MINUTES_MS as int)
}

/// Five-minute rollups that start before this time are compacted into hours:
/// the hour that starts the last thirty days.
pub open spec fn five_minute_cutoff_spec(now_ms: int) -> int {
    bucket_start_spec(now_ms - THIRTY_DAYS_MS, ONE_HOUR_MS as int)
}

proof fn lemma_aligned_gap(b: int, c: int, w: int)
    requires
        w > 0,
        b % w == 0,
        c % w == 0,
        b < c,
    ensures
        b + w <= c,
{
    vstd::arithmetic::div_mod::lemma_fundamental_div_mod(b, w);
    vstd::arithmetic::div_mod::lemma_fundamental_div_mod(c, w);
    let qb = b / w;
    let qc = c / w;
    assert(b + w <= c) by (nonlinear_arith)
        requires
            w > 0,
            b == w * qb,
            c == w * qc,
            b < c,
    ;
}

/// Compaction takes closed windows only, and keeps the recent data: every
/// raw sample before the raw cutoff lies in a five-minute window that ends
/// by the cutoff, and the cutoff is at least seven days back; likewise every
/// five-minute rollup before its cutoff lies in an hour that ends by it, at
/// least thirty days back.
pub proof fn law_compaction_takes_closed_windows(now_ms: int, t: int)
    ensures
        raw_cutoff_spec(now_ms) <= now_ms - SEVEN_DAYS_MS,
        t < raw_cutoff_spec(now_ms) ==> bucket_start_spec(t, FIVE_MINUTES_MS as int)
            + FIVE_MINUTES_MS <= raw_cutoff_spec(now_ms),
        five_minute_cutoff_spec(now_ms) <= now_ms - THIRTY_DAYS_MS,
        t < five_minute_cutoff_spec(now_ms) ==> bucket_start_spec(t, ONE_HOUR_MS as int)
            + ONE_HOUR_MS <= five_minute_cutoff_spec(now_ms),
{
    let five = FIVE_MINUTES_MS as int;
    let hour = ONE_HOUR_MS as int;
    lemma_bucket_bounds(now_ms - SEVEN_DAYS_MS, five);
    lemma_bucket_bounds(now_ms - THIRTY_DAYS_MS, hour);
    lemma_bucket_bounds(t, five);
    lemma_bucket_bounds(t, hour);
    if t < raw_cutoff_spec(now_ms) {
        lemma_aligned_gap(bucket_start_spec(t, five), raw_cutoff_spec(now_ms), five);
    }
    if t < five_minute_cutoff_spec(now_ms) {
        lemma_aligned_gap(bucket_start_spec(t, hour), five_minute_cutoff_spec(now_ms), hour);
    }
}

/// The cutoff for raw samples.
pub fn raw_cutoff(now_ms: i64) -> (r: i64)
    requires
        i64::MIN <= raw_cutoff_spec(now_ms as int),
        i64::MIN <= now_ms - SEVEN_DAYS_MS,
    ensures
        r == raw_cutoff_spec(now_ms as int),
{
    bucket_start(now_ms - SEVEN_DAYS_MS, FIVE_MINUTES_MS)
}

/// The cutoff for five-minute rollups.
pub fn five_minute_cutoff(now_ms: i64) -> (r: i64)
    requires
        i64::MIN <= five_minute_cutoff_spec(now_ms as int),
        i64::MIN <= now_ms - THIRTY_DAYS_MS,
    ensures
        r == five_minute_cutoff_spec(now_ms as int),
{
    bucket_start(now_ms - THIRTY_DAYS_MS, ONE_HOUR_MS)
}

/// The key by which metrics (name, unit) and facts (name, no unit) are
/// ordered in a snapshot.
pub type SnapshotKey = (String, Option<String>);

pub open spec fn key_view(k: SnapshotKey) -> (Seq<char>, Option<Seq<char>>) {
    (
        k.0@,
        match k.1 {
            Some(u) => Some(u@),
            None => None,
        },
    )
}

/// Order of optional texts: no text first, then texts in lexicographic order.
pub open spec fn opt_lt(a: Option<Seq<char>>, b: Option<Seq<char>>) -> bool {
    match (a, b) {
        (None, Some(_)) => true,
        (Some(x), Some(y)) => lex_lt(x, y),
        _ => false,
    }
}

/// Order of snapshot keys: by name, then by unit.
pub open spec fn key_lt(a: (Seq<char>, Option<Seq<char>>), b: (Seq<char>, Option<Seq<char>>)) -> bool {
    lex_lt(a.0, b.0) || (a.0 == b.0 && opt_lt(a.1, b.1))
}

proof fn lemma_key_order(
    a: (Seq<char>, Option<Seq<char>>),
    b: (Seq<char>, Option<Seq<char>>),
    c: (Seq<char>, Option<Seq<char>>),
)
    ensures
        !key_lt(a, a),
        key_lt(a, b) ==> !key_lt(b, a),
        key_lt(a, b) && key_lt(b, c) ==> key_lt(a, c),
        a == b || key_lt(a, b) || key_lt(b, a),
{
    lemma_lex_irreflexive(a.0);
    lemma_lex_asymmetric(a.0, b.0);
    lemma_lex_total(a.0, b.0);
    if let Some(x) = a.1 {
        lemma_lex_irreflexive(x);
    }
    if let (Some(x), Some(y)) = (a.1, b.1) {
        lemma_lex_asymmetric(x, y);
        lemma_lex_total(x, y);
    }
    if key_lt(a, b) && key_lt(b, c) {
        if lex_lt(a.0, b.0) && lex_lt(b.0, c.0) {
            lemma_lex_transitive(a.0, b.0, c.0);
        }
        if let (Some(x), Some(y), Some(z)) = (a.1, b.1, c.1) {
            if lex_lt(x, y) && lex_lt(y, z) {
                lemma_lex_transitive(x, y, z);
            }
        }
    }
}

/// Position `i` of a stable sort comes before position `j`: a smaller key, or
/// an equal key that came earlier.
pub open spec fn sorted_before(
    keys: Seq<(Seq<char>, Option<Seq<char>>)>,
    i: int,
    j: int,
) -> bool {
    key_lt(keys[i], keys[j]) || (keys[i] == keys[j] && i < j)
}

/// `order` lists the positions `0..n` of `keys` each once, sorted by key and,
/// among equal keys, by position.
pub open spec fn is_stable_order(keys: Seq<(Seq<char>, Option<Seq<char>>)>, order: Seq<usize>) -> bool {
    &&& order.len() == keys.len()
    &&& forall|i: int| 0 <= i < order.len() ==> order[i] < keys.len()
    &&& forall|i: int, j: int| 0 <= i < j < order.len() ==> order[i] != order[j]
    &&& forall|i: int, j: int|
        0 <= i < j < order.len() ==> sorted_before(keys, order[i] as int, order[j] as int)
}

fn opt_less(a: &Option<String>, b: &Option<String>) -> (r: bool)
    ensures
        r == opt_lt(
            match a {
                Some(u) => Some(u@),
                None => None,
            },
            match b {
                Some(u) => Some(u@),
                None => None,
            },
        ),
{
    match (a, b) {
        (None, Some(_)) => true,
        (Some(x), Some(y)) => lex_less(&chars_of(x.as_str()), &chars_of(y.as_str())),
        _ => false,
    }
}

fn key_less(a: &SnapshotKey, b: &SnapshotKey) -> (r: bool)
    ensures
        r == key_lt(key_view(*a), key_view(*b)),
{
    let an = chars_of(a.0.as_str());
    let bn = chars_of(b.0.as_str());
    lex_less(&an, &bn) || (same_chars(&an, &bn) && opt_less(&a.1, &b.1))
}

/// The order in which snapshot entries are written: a stable sort by key.
pub fn snapshot_order(keys: &Vec<SnapshotKey>) -> (order: Vec<usize>)
    ensures
        is_stable_order(keys@.map_values(|k: SnapshotKey| key_view(k)), order@),
{
    let ghost kv = keys@.map_values(|k: SnapshotKey| key_view(k));
    let mut order: Vec<usize> = Vec::new();
    let mut m: usize = 0;
    while m < keys.len()
        invariant
            kv == keys@.map_values(|k: SnapshotKey| key_view(k)),
            m <= keys.len(),
            order@.len() == m,
            forall|i: int| 0 <= i < order@.len() ==> order@[i] < m,
            forall|i: int, j: int| 0 <= i < j < order@.len() ==> order@[i] != order@[j],
            forall|i: int, j: int|
                0 <= i < j < order@.len() ==> sorted_before(kv, order@[i] as int, order@[j] as int),
        decreases keys.len() - m,
    {
        let mut p: usize = 0;
        while p < order.len() && !key_less(&keys[m], &keys[order[p]])
            invariant
                kv == keys@.map_values(|k: SnapshotKey| key_view(k)),
                m < keys.len(),
                p <= order@.len(),
                forall|i: int| 0 <= i < order@.len() ==> order@[i] < m,
                forall|i: int| 0 <= i < p ==> !key_lt(kv[m as int], #[trigger] kv[order@[i] as int]),
            decreases order@.len() - p,
        {
            p += 1;
        }
        let ghost old_order = order@;
        proof {
            assert forall|i: int| 0 <= i < p implies sorted_before(kv, old_order[i] as int, m as int) by {
                lemma_key_order(kv[m as int], kv[old_order[i] as int], kv[m as int]);
            }
            if p < old_order.len() {
                assert(key_lt(kv[m as int], kv[old_order[p as int] as int]));
                assert forall|j: int| p <= j < old_order.len() implies sorted_before(
                    kv,
                    m as int,
                    old_order[j] as int,
                ) by {
                    if j > p {
                        assert(sorted_before(kv, old_order[p as int] as int, old_order[j] as int));
                        lemma_key_order(kv[m as int], kv[old_order[p as int] as int], kv[old_order[j] as int]);
                    }
                }
            }
        }
        order.insert(p, m);
        proof {
            assert(order@ == old_order.insert(p as int, m));
            assert forall|i: int, j: int| 0 <= i < j < order@.len() implies sorted_before(
                kv,
                order@[i] as int,
                order@[j] as int,
            ) by {
                if j < p {
                    assert(order@[i] == old_order[i] && order@[j] == old_order[j]);
                } else if j == p {
                    assert(order@[i] == old_order[i]);
                } else if i < p {
                    assert(order@[i] == old_order[i] && order@[j] == old_order[j - 1]);
                    let a = old_order[i] as int;
                    let b = old_order[j - 1] as int;
                    assert(sorted_before(kv, a, m as int));
                    assert(sorted_before(kv, m as int, b));
                    lemma_key_order(kv[a], kv[m as int], kv[b]);
                } else if i == p {
                    assert(order@[j] == old_order[j - 1]);
                } else {
                    assert(order@[i] == old_order[i - 1] && order@[j] == old_order[j - 1]);
                }
            }
            assert forall|i: int, j: int| 0 <= i < j < order@.len() implies order@[i] != order@[j] by {
                if j < p {
                    assert(order@[i] == old_order[i] && order@[j] == old_order[j]);
                } else if j == p {
                    assert(order@[i] == old_order[i]);
                } else if i < p {
                    assert(order@[i] == old_order[i] && order@[j] == old_order[j - 1]);
                } else if i == p {
                    assert(order@[j] == old_order[j - 1]);
                } else {
                    assert(order@[i] == old_order[i - 1] && order@[j] == old_order[j - 1]);
                }
            }
            assert forall|i: int| 0 <= i < order@.len() implies order@[i] < m + 1 by {
                if i < p {
                    assert(order@[i] == old_order[i]);
                } else if i > p {
                    assert(order@[i] == old_order[i - 1]);
                }
            }
        }
        m += 1;
    }
    order
}

} // verus!
