//! The data that the scheduler keeps about each job and each run.

use vstd::prelude::*;

verus! {

/// A point in time: whole seconds since the Unix epoch and the nanoseconds past them.
#[derive(Clone, Copy, PartialEq, Eq, Structural, Debug)]
pub struct Timestamp {
    pub secs: i64,
    pub nanos: u32,
}

impl Timestamp {
    /// A timestamp whose nanoseconds are below one second.
    pub open spec fn wf(self) -> bool {
        self.nanos < 1_000_000_000
    }

    /// The whole seconds of the timestamp `secs` seconds earlier, stopping at the
    /// earliest that `i64` holds.
    pub open spec fn secs_before(self, secs: int) -> i64 {
        if self.secs - secs < i64::MIN {
            i64::MIN
        } else {
            (self.secs - secs) as i64
        }
    }

    /// The timestamp `secs` seconds earlier (the earliest second `i64` holds, when
    /// that lies before it).
    pub fn seconds_before(&self, secs: i64) -> (r: Timestamp)
        requires
            secs >= 0,
        ensures
            r.secs == self.secs_before(secs as int),
            r.nanos == self.nanos,
    {
        let s = if self.secs >= i64::MIN + secs {
            self.secs - secs
        } else {
            i64::MIN
        };
        Timestamp { secs: s, nanos: self.nanos }
    }
}

/// A reading of the system clock against the Unix epoch: `Ok` with the whole
/// seconds and nanoseconds since the epoch, or `Err` with the whole seconds and
/// nanoseconds by which the reading lies before it.
pub type ClockReading = Result<(u64, u32), (u64, u32)>;

/// Whether the nanoseconds of a reading are below one second.
pub open spec fn reading_wf(r: ClockReading) -> bool {
    match r {
        Ok((_, n)) => n < 1_000_000_000,
        Err((_, n)) => n < 1_000_000_000,
    }
}

/// The timestamp of a clock reading: a time `s` seconds and `n` nanoseconds before
/// the epoch is `-s` seconds when `n` is 0, else `-s - 1` seconds and `10^9 - n`
/// nanoseconds. Seconds beyond what `i64` holds stop at its bounds (the latest at
/// `i64::MAX`, the earliest at `i64::MIN` with no nanoseconds).
pub open spec fn reading_timestamp(r: ClockReading) -> Timestamp {
    match r {
        Ok((s, n)) => if s <= i64::MAX {
            Timestamp { secs: s as i64, nanos: n }
        } else {
            Timestamp { secs: i64::MAX, nanos: n }
        },
        Err((s, n)) => if n == 0 {
            if -s >= i64::MIN {
                Timestamp { secs: (-s) as i64, nanos: 0 }
            } else {
                Timestamp { secs: i64::MIN, nanos: 0 }
            }
        } else if -s - 1 >= i64::MIN {
            Timestamp { secs: (-s - 1) as i64, nanos: (1_000_000_000 - n) as u32 }
        } else {
            Timestamp { secs: i64::MIN, nanos: 0 }
        },
    }
}

/// The timestamp of a clock reading.
pub fn timestamp_from_reading(r: ClockReading) -> (t: Timestamp)
    requires
        reading_wf(r),
    ensures
        t == reading_timestamp(r),
        t.wf(),
{
    match r {
        Ok((s, n)) => {
            if s <= 9223372036854775807u64 {
                Timestamp { secs: s as i64, nanos: n }
            } else {
                Timestamp { secs: i64::MAX, nanos: n }
            }
        },
        Err((s, n)) => {
            let neg: i128 = -(s as i128);
            if n == 0 {
                if neg >= -9223372036854775808i128 {
                    Timestamp { secs: neg as i64, nanos: 0 }
                } else {
                    Timestamp { secs: i64::MIN, nanos: 0 }
                }
            } else if neg - 1 >= -9223372036854775808i128 {
                Timestamp { secs: (neg - 1) as i64, nanos: 1_000_000_000 - n }
            } else {
                Timestamp { secs: i64::MIN, nanos: 0 }
            }
        },
    }
}

#[verifier::external_type_specification]
#[verifier::external_body]
pub struct ExSystemTime(std::time::SystemTime);

/// `SystemTime::now`: the system clock's reading at the call. Which reading comes
/// back is not stated.
#[verifier::external_body]
fn system_time_now() -> (t: std::time::SystemTime) {
    std::time::SystemTime::now()
}

/// `SystemTime::duration_since(UNIX_EPOCH)`: `Ok` with the time since the epoch
/// when `t` is not before it, else `Err` with the time by which it is before it
/// (`SystemTimeError::duration`); each taken apart with `Duration::as_secs` and
/// `Duration::subsec_nanos`, whose nanoseconds std documents as below one second.
/// Which side and which values come back depends on `t`, which is opaque here; only
/// the nanosecond bound is stated.
#[verifier::external_body]
fn since_unix_epoch(t: &std::time::SystemTime) -> (r: ClockReading)
    ensures
        reading_wf(r),
{
    match t.duration_since(std::time::UNIX_EPOCH) {
        Ok(d) => Ok((d.as_secs(), d.subsec_nanos())),
        Err(e) => Err((e.duration().as_secs(), e.duration().subsec_nanos())),
    }
}

/// The current time, read from the system clock: the timestamp of some clock
/// reading. Which reading is not stated.
pub(crate) fn now_timestamp() -> (r: Timestamp)
    ensures
        r.wf(),
        exists|reading: ClockReading| reading_wf(reading) && r == reading_timestamp(reading),
{
    let t = system_time_now();
    let reading = since_unix_epoch(&t);
    let r = timestamp_from_reading(reading);
    assert(reading_wf(reading) && r == reading_timestamp(reading));
    r
}

/// Where a job is defined: the user's crontab, or a launchd agent's property list.
#[derive(Clone, Debug)]
pub enum JobSource {
    Cron,
    Launchd { label: String, plist_path: String },
}

impl PartialEq for JobSource {
    fn eq(&self, other: &Self) -> (r: bool) {
        match (self, other) {
            (JobSource::Cron, JobSource::Cron) => true,
            (
                JobSource::Launchd { label: l1, plist_path: p1 },
                JobSource::Launchd { label: l2, plist_path: p2 },
            ) => l1.eq(l2) && p1.eq(p2),
            _ => false,
        }
    }
}

impl vstd::std_specs::cmp::PartialEqSpecImpl for JobSource {
    open spec fn obeys_eq_spec() -> bool {
        true
    }

    open spec fn eq_spec(&self, other: &Self) -> bool {
        match (self, other) {
            (JobSource::Cron, JobSource::Cron) => true,
            (
                JobSource::Launchd { label: l1, plist_path: p1 },
                JobSource::Launchd { label: l2, plist_path: p2 },
            ) => l1@ == l2@ && p1@ == p2@,
            _ => false,
        }
    }
}

/// The outcome of a run.
#[derive(Clone, Copy, PartialEq, Eq, Structural, Debug)]
pub enum RunStatus {
    Success,
    Error,
    Running,
}

/// One run of a job.
#[derive(Clone, Debug)]
pub struct RunLog {
    pub timestamp: Timestamp,
    pub status: RunStatus,
    pub duration: String,
    pub output: String,
}

/// A scheduled job and what is known of its runs.
#[derive(Clone, Debug)]
pub struct CronJob {
    pub id: usize,
    pub name: String,
    pub schedule: String,
    pub command: String,
    pub enabled: bool,
    pub source: JobSource,
    pub last_run: Option<Timestamp>,
    pub last_status: Option<RunStatus>,
    pub last_duration: Option<String>,
    pub logs: Vec<RunLog>,
}

/// The jobs are numbered 0, 1, 2, ... in the order they stand.
pub open spec fn ids_in_order(js: Seq<CronJob>) -> bool {
    forall|i: int| 0 <= i < js.len() ==> (#[trigger] js[i]).id == i
}

} // verus!
