use vstd::prelude::*;

verus! {

/// Milliseconds since the Unix epoch.
pub type Timestamp = u64;

/// A span of time in milliseconds.
pub type DurationMs = u64;

pub const SECOND: DurationMs = 1_000;

pub const MINUTE: DurationMs = 60_000;

/// Calls `std::time::UNIX_EPOCH.elapsed()` and converts the duration to
/// whole milliseconds; `None` when the standard library reports the clock
/// as set before the epoch. The clock is outside the library's control, so
/// nothing is claimed of the value.
#[verifier::external_body]
fn read_clock() -> (reading: Option<Timestamp>) {
    match std::time::UNIX_EPOCH.elapsed() {
        Ok(d) => Some(d.as_millis() as u64),
        Err(_) => None,
    }
}

/// The timestamp a clock reading stands for: the reading itself, or the
/// epoch when the clock reads before it.
pub fn timestamp_or_epoch(reading: Option<Timestamp>) -> (t: Timestamp)
    ensures
        t == match reading {
            Some(r) => r,
            None => 0,
        },
{
    match reading {
        Some(r) => r,
        None => 0,
    }
}

/// Milliseconds since the Unix epoch, read from the system clock; a clock
/// set before the epoch reads as the epoch.
pub fn now() -> (t: Timestamp) {
    timestamp_or_epoch(read_clock())
}

/// The instant at which a timer started at `started_at` and lasting `duration` runs out.
pub open spec fn deadline(started_at: Timestamp, duration: DurationMs) -> int {
    started_at + duration
}

/// Whether a timer started at `started_at` and lasting `duration` has run out at `now`.
pub open spec fn done_at(started_at: Timestamp, duration: DurationMs, now: Timestamp) -> bool {
    now >= deadline(started_at, duration)
}

/// Whether a timer started at `started_at` and lasting `duration` has run out at `now`.
pub fn is_complete_at(started_at: Timestamp, duration: DurationMs, now: Timestamp) -> (done: bool)
    requires
        deadline(started_at, duration) <= u64::MAX,
    ensures
        done == (now >= deadline(started_at, duration)),
{
    now >= started_at + duration
}

/// Milliseconds left at `now` on a timer started at `started_at` lasting `duration`;
/// zero once it has run out.
pub fn remaining_at(started_at: Timestamp, duration: DurationMs, now: Timestamp) -> (left: DurationMs)
    requires
        deadline(started_at, duration) <= u64::MAX,
    ensures
        now >= deadline(started_at, duration) ==> left == 0,
        now < deadline(started_at, duration) ==> left == deadline(started_at, duration) - now,
{
    let end = started_at + duration;
    if now >= end {
        0
    } else {
        end - now
    }
}

/// Whether the timer has run out, judged by the system clock; the verdict is
/// `is_complete_at` applied to whatever time the clock reports.
pub fn is_complete(started_at: Timestamp, duration: DurationMs) -> (done: bool)
    requires
        deadline(started_at, duration) <= u64::MAX,
    ensures
        exists|t: Timestamp| #[trigger] done_at(started_at, duration, t) == done,
{
    let t = now();
    let done = is_complete_at(started_at, duration, t);
    assert(done_at(started_at, duration, t) == done);
    done
}

/// Milliseconds left on the timer, judged by the system clock.
pub fn remaining(started_at: Timestamp, duration: DurationMs) -> (left: DurationMs)
    requires
        deadline(started_at, duration) <= u64::MAX,
    ensures
        left <= deadline(started_at, duration),
{
    let t = now();
    remaining_at(started_at, duration, t)
}

// ── Batch timers ─────────────────────────────────────────────────────────

/// Milliseconds from `start` to `now`, or zero if `now` is earlier.
pub open spec fn elapsed(start: Timestamp, now: Timestamp) -> int {
    if now >= start {
        now - start
    } else {
        0
    }
}

/// Units a batch timer says are finished at `now`: whole unit durations
/// elapsed, capped at the batch size.
pub open spec fn units_done(
    started_at: Timestamp,
    duration_per_unit: DurationMs,
    total_units: u32,
    now: Timestamp,
) -> u32 {
    let units = elapsed(started_at, now) / (duration_per_unit as int);
    if units >= total_units {
        total_units
    } else {
        units as u32
    }
}

/// Milliseconds until the unit after `completed_units` finishes, or zero once
/// the batch is done or that moment has passed.
pub open spec fn unit_remaining(
    started_at: Timestamp,
    duration_per_unit: DurationMs,
    completed_units: u32,
    total_units: u32,
    now: Timestamp,
) -> int {
    let next = (completed_units + 1) * duration_per_unit;
    if completed_units >= total_units || next <= elapsed(started_at, now) {
        0
    } else {
        next - elapsed(started_at, now)
    }
}

/// Start time that `dev_skip` gives a task so that the whole batch reads as
/// finished: one millisecond more than the batch takes, before `now`
/// (clamped at zero).
pub open spec fn skipped_start(duration_per_unit: DurationMs, total_units: u32, now: Timestamp) -> int {
    let needed = duration_per_unit * total_units + 1;
    if now >= needed {
        now - needed
    } else {
        0
    }
}

/// A batch back-dated by `dev_skip`, seen at the time of the skip, reads as
/// fully done (when at least a whole batch of time has passed since the
/// epoch).
pub proof fn lemma_skip_finishes_batch(duration_per_unit: DurationMs, total_units: u32, now: Timestamp)
    requires
        duration_per_unit > 0,
        duration_per_unit * total_units + 1 <= now,
    ensures
        units_done(
            skipped_start(duration_per_unit, total_units, now) as u64,
            duration_per_unit,
            total_units,
            now,
        ) == total_units,
{
    let d = duration_per_unit as int;
    let n = total_units as int;
    let start = skipped_start(duration_per_unit, total_units, now);
    assert(elapsed(start as u64, now) == d * n + 1);
    assert((d * n + 1) / d == n || (d * n + 1) / d == n + 1) by (nonlinear_arith)
        requires
            d > 0,
            n >= 0,
    {
        if d == 1 {
            assert(d * n + 1 == n + 1);
        } else {
            assert(d * n <= d * n + 1 < d * (n + 1));
        }
    }
}

} // verus!
