use crossbeam::atomic::AtomicCell;
use vstd::prelude::*;

verus! {

// Instants are milliseconds counted from a starting instant that the client picks.

/// How long requests are refused after the server signals a throttle.
pub const COOLDOWN_MS: u64 = 60_000;

/// The status of a successful response.
pub const STATUS_OK: u16 = 200;

/// The status with which the server signals a throttle.
pub const STATUS_TOO_MANY_REQUESTS: u16 = 429;

/// An error in client-server communication.
#[derive(Debug, Clone, Copy, PartialEq, Eq, Structural)]
pub enum ClientError {
    /// The request was refused because of a rate limit in force until the
    /// given instant.
    RateLimited(u64),
    /// The server answered with a status that is neither success nor a
    /// throttle.
    ProtocolViolation(u16),
}

/// What a request attempted under the current limit may do.
#[derive(Debug, Clone, Copy, PartialEq, Eq, Structural)]
pub enum Admission {
    /// No limit is set: the request goes out.
    Proceed,
    /// The limit has passed: it is cleared and the request goes out.
    ClearAndProceed,
    /// The limit is in force until the given instant: the request fails.
    Refuse(u64),
}

/// The decision for a request attempted at `now` under `limit`.
pub open spec fn admission(limit: Option<u64>, now: u64) -> Admission {
    match limit {
        None => Admission::Proceed,
        Some(t) => if now < t {
            Admission::Refuse(t)
        } else {
            Admission::ClearAndProceed
        },
    }
}

/// The end of a cooldown that starts at `now`, saturated at the largest instant.
pub open spec fn cooldown_end(now: u64) -> u64 {
    if now + COOLDOWN_MS <= u64::MAX {
        (now + COOLDOWN_MS) as u64
    } else {
        u64::MAX
    }
}

/// The limit in force after a throttle signal received at `now`: one still in
/// force is kept, else a fresh cooldown starts.
pub open spec fn throttled_until(limit: Option<u64>, now: u64) -> u64 {
    match limit {
        Some(t) if now < t => t,
        _ => cooldown_end(now),
    }
}

/// Decides whether a request attempted at `now` may go out under `limit`.
pub fn decide_admission(limit: Option<u64>, now: u64) -> (r: Admission)
    ensures
        r == admission(limit, now),
{
    match limit {
        None => Admission::Proceed,
        Some(t) => if now < t {
            Admission::Refuse(t)
        } else {
            Admission::ClearAndProceed
        },
    }
}

/// The limit to set on a throttle signal received at `now` under `limit`.
pub fn throttle_until(limit: Option<u64>, now: u64) -> (r: u64)
    ensures
        r == throttled_until(limit, now),
{
    match limit {
        Some(t) => if now < t {
            return t;
        },
        None => {},
    }
    now.saturating_add(COOLDOWN_MS)
}

/// crossbeam's AtomicCell, carried opaquely: what it holds is never read by
/// the proofs.
#[verifier::external_type_specification]
#[verifier::external_body]
#[verifier::reject_recursive_types(T)]
pub struct ExAtomicCell<T>(AtomicCell<T>);

/// Relies on crossbeam's AtomicCell::new: a cell that holds `value`.
#[verifier::external_body]
fn new_cell(value: Option<u64>) -> AtomicCell<Option<u64>> {
    AtomicCell::new(value)
}

/// Relies on crossbeam's AtomicCell::load. Other threads may write the cell at
/// any time, so nothing is known of the value read.
#[verifier::external_body]
fn load_cell(cell: &AtomicCell<Option<u64>>) -> Option<u64> {
    cell.load()
}

/// Relies on crossbeam's AtomicCell::store.
#[verifier::external_body]
fn store_cell(cell: &AtomicCell<Option<u64>>, value: Option<u64>) {
    cell.store(value)
}

/// Relies on crossbeam's AtomicCell::compare_exchange: `new` is written only
/// where the cell held `current`; the value the cell held is returned, in `Ok`
/// when it was `current`, else in `Err`.
#[verifier::external_body]
fn compare_exchange_cell(
    cell: &AtomicCell<Option<u64>>,
    current: Option<u64>,
    new: Option<u64>,
) -> (r: Result<Option<u64>, Option<u64>>)
    ensures
        match r {
            Ok(v) => v == current,
            Err(v) => v != current,
        },
{
    cell.compare_exchange(current, new)
}

/// The shared rate-limit state of one client: the instant until which
/// requests are refused, if any. All updates are single atomic operations, so
/// concurrent callers never hold a lock across a request.
pub struct RateGate {
    until: AtomicCell<Option<u64>>,
}

impl RateGate {
    /// A gate with no limit set.
    pub fn new() -> (r: RateGate) {
        RateGate { until: new_cell(None) }
    }

    /// Consults the limit before a request goes out at `now`. A limit that
    /// has passed is cleared, unless another caller replaced it meanwhile.
    pub fn before_dispatch(&self, now: u64) -> (r: Result<(), ClientError>)
        ensures
            match r {
                Ok(()) => true,
                Err(e) => e matches ClientError::RateLimited(t) && now < t,
            },
    {
        let seen = load_cell(&self.until);
        match decide_admission(seen, now) {
            Admission::Proceed => Ok(()),
            Admission::Refuse(t) => Err(ClientError::RateLimited(t)),
            Admission::ClearAndProceed => match compare_exchange_cell(&self.until, seen, None) {
                Ok(_) => Ok(()),
                Err(current) => match decide_admission(current, now) {
                    Admission::Refuse(t) => Err(ClientError::RateLimited(t)),
                    _ => Ok(()),
                },
            },
        }
    }

    /// Records a throttle signal received at `now` and returns the instant
    /// until which requests are refused. A limit that another caller set and
    /// that is still in force is adopted, not extended.
    pub fn on_throttle(&self, now: u64) -> (r: u64)
        ensures
            now < r || r == cooldown_end(now),
    {
        let seen = load_cell(&self.until);
        let until = throttle_until(seen, now);
        match seen {
            Some(t) => if t == until {
                return until;
            },
            None => {},
        }
        match compare_exchange_cell(&self.until, seen, Some(until)) {
            Ok(_) => until,
            Err(current) => match decide_admission(current, now) {
                Admission::Refuse(t) => t,
                _ => {
                    store_cell(&self.until, Some(until));
                    until
                },
            },
        }
    }

    /// Turns the status of a response received at `now` into the caller's
    /// result: success goes on, a throttle sets the limit, any other status
    /// is a protocol violation.
    pub fn after_response(&self, status: u16, now: u64) -> (r: Result<(), ClientError>)
        ensures
            r is Ok <==> status == STATUS_OK,
            status == STATUS_TOO_MANY_REQUESTS ==> (r matches Err(ClientError::RateLimited(t)) && (
            now < t || t == cooldown_end(now))),
            status != STATUS_OK && status != STATUS_TOO_MANY_REQUESTS ==> r == Err::<
                (),
                ClientError,
            >(ClientError::ProtocolViolation(status)),
    {
        if status == STATUS_OK {
            Ok(())
        } else if status == STATUS_TOO_MANY_REQUESTS {
            Err(ClientError::RateLimited(self.on_throttle(now)))
        } else {
            Err(ClientError::ProtocolViolation(status))
        }
    }
}

/// After a throttle signal received at `at`, every request attempted before
/// the instant it set is refused with that same instant, and the first one
/// attempted at or after it goes out.
pub proof fn lemma_cooldown(limit: Option<u64>, at: u64, now: u64)
    ensures
        now < throttled_until(limit, at) ==> admission(Some(throttled_until(limit, at)), now)
            == Admission::Refuse(throttled_until(limit, at)),
        now >= throttled_until(limit, at) ==> admission(Some(throttled_until(limit, at)), now)
            == Admission::ClearAndProceed,
{
}

/// Requests issued after a throttle signal and before the limit it set all
/// see that same limit: each is refused with it, and a further throttle signal
/// among them keeps it rather than starting a fresh cooldown.
pub proof fn lemma_shared_cooldown(limit: Option<u64>, at: u64, nows: Seq<u64>)
    requires
        forall|i: int| 0 <= i < nows.len() ==> at <= #[trigger] nows[i] < throttled_until(limit, at),
    ensures
        forall|i: int|
            0 <= i < nows.len() ==> admission(Some(throttled_until(limit, at)), #[trigger] nows[i])
                == Admission::Refuse(throttled_until(limit, at)) && throttled_until(
                Some(throttled_until(limit, at)),
                nows[i],
            ) == throttled_until(limit, at),
{
}

} // verus!
