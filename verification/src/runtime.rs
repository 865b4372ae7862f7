//! The entry deadline and the publication gate.
//!
//! The monotonic clock starts before any input is read. A result that
//! completes in the cleanup reserve, or after expiry, cannot be published.
use vstd::prelude::*;

verus! {

/// Milliseconds since the invocation was entered.
#[derive(Clone, Copy, Debug, PartialEq, Eq, Structural)]
pub struct MonotonicMillis(pub u64);

/// A span of milliseconds.
#[derive(Clone, Copy, Debug, PartialEq, Eq, Structural)]
pub struct DurationMillis(pub u64);

/// What a limit counts.
#[derive(Clone, Copy, Debug, PartialEq, Eq, Structural)]
pub enum LimitUnit {
    Bytes,
}

/// How a bound was exceeded.
#[derive(Clone, Copy, Debug, PartialEq, Eq)]
pub enum LimitError {
    /// More was observed than the named limit allows.
    AboveLimit { name: &'static str, observed: u128, limit: u128, unit: LimitUnit },
    ReserveExceedsDeadline,
    DeadlineOverflow,
    WorkWindowClosed,
}

/// Why an invocation cannot go on or publish.
#[derive(Clone, Copy, Debug, PartialEq, Eq)]
pub enum RuntimeError {
    RuntimeUnavailable,
    Deadline(LimitError),
    LateResultSuppressed,
    Cancelled,
    StdinTimeout,
    UnboundedLeaf,
    BlockingPoolUnavailable,
}

impl RuntimeError {
    /// The text of every error that is not a limit's own.
    pub open spec fn text(self) -> Option<Seq<char>> {
        match self {
            RuntimeError::RuntimeUnavailable => Some(
                "asupersync runtime could not be constructed"@,
            ),
            RuntimeError::Deadline(_) => None,
            RuntimeError::LateResultSuppressed => Some(
                "late result suppressed after cleanup reserve or expiry"@,
            ),
            RuntimeError::Cancelled => Some("invocation cancelled"@),
            RuntimeError::StdinTimeout => Some("stdin read reached the cleanup reserve"@),
            RuntimeError::UnboundedLeaf => Some(
                "uninterruptible blocking leaf is not admitted on the hook path"@,
            ),
            RuntimeError::BlockingPoolUnavailable => Some(
                "blocking pool could not admit the leaf"@,
            ),
        }
    }

    pub fn as_str(self) -> (text: Option<&'static str>)
        ensures
            match text {
                Some(t) => self.text() == Some(t@),
                None => self.text() is None,
            },
    {
        match self {
            RuntimeError::RuntimeUnavailable => Some(
                "asupersync runtime could not be constructed",
            ),
            RuntimeError::Deadline(_) => None,
            RuntimeError::LateResultSuppressed => Some(
                "late result suppressed after cleanup reserve or expiry",
            ),
            RuntimeError::Cancelled => Some("invocation cancelled"),
            RuntimeError::StdinTimeout => Some("stdin read reached the cleanup reserve"),
            RuntimeError::UnboundedLeaf => Some(
                "uninterruptible blocking leaf is not admitted on the hook path",
            ),
            RuntimeError::BlockingPoolUnavailable => Some("blocking pool could not admit the leaf"),
        }
    }
}

/// When work must stop and when the invocation expires.
#[derive(Clone, Copy, Debug, PartialEq, Eq, Structural)]
pub struct InvocationDeadline {
    latest_work: u64,
    expiry: u64,
}

impl InvocationDeadline {
    /// The first millisecond of the cleanup reserve.
    pub closed spec fn latest_work_ms(self) -> nat {
        self.latest_work as nat
    }

    /// The first millisecond after the invocation.
    pub closed spec fn expiry_ms(self) -> nat {
        self.expiry as nat
    }

    /// The reserve is the end of the invocation.
    pub closed spec fn inv(self) -> bool {
        self.latest_work <= self.expiry
    }

    pub open spec fn remaining_work(self, now: MonotonicMillis) -> nat {
        if now.0 < self.latest_work_ms() {
            (self.latest_work_ms() - now.0) as nat
        } else {
            0
        }
    }

    pub open spec fn remaining_life(self, now: MonotonicMillis) -> nat {
        if now.0 < self.expiry_ms() {
            (self.expiry_ms() - now.0) as nat
        } else {
            0
        }
    }

    pub fn new(start: MonotonicMillis, total: DurationMillis, cleanup_reserve: DurationMillis) -> (r:
        Result<InvocationDeadline, LimitError>)
        ensures
            match r {
                Ok(deadline) => {
                    &&& deadline.inv()
                    &&& cleanup_reserve.0 <= total.0
                    &&& start.0 + total.0 <= u64::MAX
                    &&& deadline.expiry_ms() == start.0 + total.0
                    &&& deadline.latest_work_ms() == start.0 + total.0 - cleanup_reserve.0
                },
                Err(error) => if cleanup_reserve.0 > total.0 {
                    error == LimitError::ReserveExceedsDeadline
                } else {
                    start.0 + total.0 > u64::MAX && error == LimitError::DeadlineOverflow
                },
            },
    {
        if cleanup_reserve.0 > total.0 {
            return Err(LimitError::ReserveExceedsDeadline);
        }
        if total.0 > u64::MAX - start.0 {
            return Err(LimitError::DeadlineOverflow);
        }
        let expiry: u64 = start.0 + total.0;
        Ok(InvocationDeadline { latest_work: expiry - cleanup_reserve.0, expiry })
    }

    pub fn latest_work_time(self) -> (t: MonotonicMillis)
        ensures
            t.0 == self.latest_work_ms(),
    {
        MonotonicMillis(self.latest_work)
    }

    pub fn expires_at(self) -> (t: MonotonicMillis)
        ensures
            t.0 == self.expiry_ms(),
    {
        MonotonicMillis(self.expiry)
    }

    /// New work starts only before the cleanup reserve.
    pub fn ensure_can_start_work(self, now: MonotonicMillis) -> (r: Result<(), LimitError>)
        ensures
            r == (if now.0 < self.latest_work_ms() {
                Ok::<(), LimitError>(())
            } else {
                Err(LimitError::WorkWindowClosed)
            }),
    {
        if now.0 < self.latest_work {
            Ok(())
        } else {
            Err(LimitError::WorkWindowClosed)
        }
    }

    pub fn remaining_before_cleanup(self, now: MonotonicMillis) -> (d: DurationMillis)
        ensures
            d.0 == self.remaining_work(now),
    {
        if now.0 < self.latest_work {
            DurationMillis(self.latest_work - now.0)
        } else {
            DurationMillis(0)
        }
    }

    pub fn remaining_until_expiry(self, now: MonotonicMillis) -> (d: DurationMillis)
        ensures
            d.0 == self.remaining_life(now),
    {
        if now.0 < self.expiry {
            DurationMillis(self.expiry - now.0)
        } else {
            DurationMillis(0)
        }
    }
}

/// The clock of an invocation. What has elapsed since entry is read outside
/// and handed in.
#[derive(Clone, Copy, Debug, PartialEq, Eq, Structural)]
pub struct EntryClock {
    deadline: InvocationDeadline,
}

/// Elapsed time as the clock keeps it.
pub open spec fn clock_time(elapsed_ms: u128) -> u64 {
    if elapsed_ms <= u64::MAX {
        elapsed_ms as u64
    } else {
        u64::MAX
    }
}

impl EntryClock {
    pub closed spec fn limits(self) -> InvocationDeadline {
        self.deadline
    }

    pub fn capture_with(total: DurationMillis, cleanup_reserve: DurationMillis) -> (r: Result<
        EntryClock,
        RuntimeError,
    >)
        ensures
            match r {
                Ok(clock) => {
                    &&& cleanup_reserve.0 <= total.0
                    &&& clock.limits().inv()
                    &&& clock.limits().expiry_ms() == total.0
                    &&& clock.limits().latest_work_ms() == total.0 - cleanup_reserve.0
                },
                Err(error) => cleanup_reserve.0 > total.0 && error == RuntimeError::Deadline(
                    LimitError::ReserveExceedsDeadline,
                ),
            },
    {
        match InvocationDeadline::new(MonotonicMillis(0), total, cleanup_reserve) {
            Ok(deadline) => Ok(EntryClock { deadline }),
            Err(error) => Err(RuntimeError::Deadline(error)),
        }
    }

    /// The time on the clock once this much has elapsed.
    pub fn now(&self, elapsed_ms: u128) -> (now: MonotonicMillis)
        ensures
            now.0 == clock_time(elapsed_ms),
    {
        if elapsed_ms <= u64::MAX as u128 {
            MonotonicMillis(elapsed_ms as u64)
        } else {
            MonotonicMillis(u64::MAX)
        }
    }

    pub fn deadline(self) -> (deadline: InvocationDeadline)
        ensures
            deadline == self.limits(),
    {
        self.deadline
    }

    /// The time, where new work may start.
    pub fn admit_new_work(&self, elapsed_ms: u128) -> (r: Result<MonotonicMillis, RuntimeError>)
        ensures
            r == (if clock_time(elapsed_ms) < self.limits().latest_work_ms() {
                Ok::<MonotonicMillis, RuntimeError>(MonotonicMillis(clock_time(elapsed_ms)))
            } else {
                Err(RuntimeError::Deadline(LimitError::WorkWindowClosed))
            }),
    {
        let now: MonotonicMillis = self.now(elapsed_ms);
        match self.deadline.ensure_can_start_work(now) {
            Ok(_) => Ok(now),
            Err(error) => Err(RuntimeError::Deadline(error)),
        }
    }

    pub fn remaining_before_cleanup(&self, elapsed_ms: u128) -> (d: DurationMillis)
        ensures
            d.0 == self.limits().remaining_work(MonotonicMillis(clock_time(elapsed_ms))),
    {
        self.deadline.remaining_before_cleanup(self.now(elapsed_ms))
    }

    pub fn remaining_until_expiry(&self, elapsed_ms: u128) -> (d: DurationMillis)
        ensures
            d.0 == self.limits().remaining_life(MonotonicMillis(clock_time(elapsed_ms))),
    {
        self.deadline.remaining_until_expiry(self.now(elapsed_ms))
    }

    /// The time that new work may take; it may not start past the window.
    pub fn work_budget(&self, elapsed_ms: u128) -> (r: Result<DurationMillis, RuntimeError>)
        ensures
            match r {
                Ok(d) => d.0 > 0 && d.0 == self.limits().remaining_work(
                    MonotonicMillis(clock_time(elapsed_ms)),
                ),
                Err(error) => self.limits().remaining_work(MonotonicMillis(clock_time(elapsed_ms)))
                    == 0 && error == RuntimeError::Deadline(LimitError::WorkWindowClosed),
            },
    {
        match self.admit_new_work(elapsed_ms) {
            Ok(now) => Ok(self.deadline.remaining_before_cleanup(now)),
            Err(error) => Err(error),
        }
    }

    /// The time that cleanup may take; nothing means the least budget.
    pub fn cleanup_budget(&self, elapsed_ms: u128) -> (r: Option<DurationMillis>)
        ensures
            ({
                let left = self.limits().remaining_life(MonotonicMillis(clock_time(elapsed_ms)));
                match r {
                    Some(d) => d.0 == left && left > 0,
                    None => left == 0,
                }
            }),
    {
        let left: DurationMillis = self.remaining_until_expiry(elapsed_ms);
        if left.0 == 0 {
            None
        } else {
            Some(left)
        }
    }

    /// How long shutdown may wait: what is left, but never nothing.
    pub fn shutdown_bound(&self, elapsed_ms: u128) -> (d: DurationMillis)
        ensures
            ({
                let left = self.limits().remaining_life(MonotonicMillis(clock_time(elapsed_ms)));
                d.0 == (if left > 0 {
                    left
                } else {
                    1
                })
            }),
    {
        let left: DurationMillis = self.remaining_until_expiry(elapsed_ms);
        if left.0 == 0 {
            DurationMillis(1)
        } else {
            left
        }
    }
}

/// Is a completed result too late to be emitted?
pub open spec fn is_late(
    deadline: InvocationDeadline,
    completed_at: MonotonicMillis,
    now: MonotonicMillis,
) -> bool {
    now.0 >= deadline.expiry_ms() || completed_at.0 >= deadline.latest_work_ms()
}

/// Decide whether a completed result may be emitted.
pub fn admit_publication(
    deadline: InvocationDeadline,
    completed_at: MonotonicMillis,
    now: MonotonicMillis,
) -> (r: Result<(), RuntimeError>)
    ensures
        r == (if is_late(deadline, completed_at, now) {
            Err::<(), RuntimeError>(RuntimeError::LateResultSuppressed)
        } else {
            Ok(())
        }),
{
    if now.0 >= deadline.expires_at().0 || completed_at.0 >= deadline.latest_work_time().0 {
        Err(RuntimeError::LateResultSuppressed)
    } else {
        Ok(())
    }
}

/// Threads of the blocking pool: at least one of each.
pub fn blocking_pool(min_threads: usize, max_threads: usize) -> (r: (usize, usize))
    ensures
        r.0 == (if min_threads < 1 {
            1
        } else {
            min_threads
        }),
        r.1 == (if max_threads < 1 {
            1
        } else {
            max_threads
        }),
{
    (
        if min_threads < 1 {
            1
        } else {
            min_threads
        },
        if max_threads < 1 {
            1
        } else {
            max_threads
        },
    )
}

/// The most that one read asks for.
pub const READ_CHUNK_BYTES: usize = 8_192;

/// What a read gave.
#[derive(Clone, Debug)]
pub enum ReadOutcome {
    /// These bytes; none at the end of the input.
    Bytes(Vec<u8>),
    Interrupted,
    Failed,
}

/// What to do next about the input.
#[derive(Clone, Copy, Debug, PartialEq, Eq)]
pub enum StdinStep {
    /// Read at most this many bytes.
    Read(usize),
    Stop(RuntimeError),
}

/// A bounded read of the input. A read that stops because the cleanup reserve
/// arrived is a timeout, not a complete document.
#[derive(Debug)]
pub struct StdinRead {
    bytes: Vec<u8>,
    max_bytes: usize,
}

impl StdinRead {
    pub closed spec fn content(self) -> Seq<u8> {
        self.bytes@
    }

    pub closed spec fn limit(self) -> nat {
        self.max_bytes as nat
    }

    /// No more is held than the limit.
    pub open spec fn inv(self) -> bool {
        self.content().len() <= self.limit() <= usize::MAX
    }

    pub open spec fn room(self) -> nat {
        let left = (self.limit() - self.content().len()) as nat;
        if left < READ_CHUNK_BYTES {
            left
        } else {
            READ_CHUNK_BYTES as nat
        }
    }

    pub fn new(max_bytes: usize) -> (read: StdinRead)
        ensures
            read.inv(),
            read.content().len() == 0,
            read.limit() == max_bytes,
    {
        StdinRead { bytes: Vec::new(), max_bytes }
    }

    /// What to do next, where new work may start or may not. Input that fills
    /// the limit is already too long: its end was not seen.
    pub fn next(&self, work_open: bool) -> (step: StdinStep)
        requires
            self.inv(),
        ensures
            step == (if !work_open {
                StdinStep::Stop(RuntimeError::StdinTimeout)
            } else if self.content().len() == self.limit() {
                StdinStep::Stop(
                    RuntimeError::Deadline(
                        LimitError::AboveLimit {
                            name: "hook_stdin",
                            observed: (self.content().len() + 1) as u128,
                            limit: self.limit() as u128,
                            unit: LimitUnit::Bytes,
                        },
                    ),
                )
            } else {
                StdinStep::Read(self.room() as usize)
            }),
    {
        if !work_open {
            return StdinStep::Stop(RuntimeError::StdinTimeout);
        }
        if self.bytes.len() >= self.max_bytes {
            return StdinStep::Stop(
                RuntimeError::Deadline(
                    LimitError::AboveLimit {
                        name: "hook_stdin",
                        observed: self.bytes.len() as u128 + 1,
                        limit: self.max_bytes as u128,
                        unit: LimitUnit::Bytes,
                    },
                ),
            );
        }
        let left: usize = self.max_bytes - self.bytes.len();
        if left < READ_CHUNK_BYTES {
            StdinStep::Read(left)
        } else {
            StdinStep::Read(READ_CHUNK_BYTES)
        }
    }

    /// Take what a read gave: whether the input is complete.
    pub fn take(&mut self, outcome: ReadOutcome) -> (r: Result<bool, RuntimeError>)
        requires
            old(self).inv(),
            outcome is Bytes ==> outcome->Bytes_0@.len() <= old(self).room(),
        ensures
            final(self).inv(),
            final(self).limit() == old(self).limit(),
            match outcome {
                ReadOutcome::Bytes(chunk) => r == Ok::<bool, RuntimeError>(chunk@.len() == 0)
                    && final(self).content() == old(self).content() + chunk@,
                ReadOutcome::Interrupted => r == Ok::<bool, RuntimeError>(false)
                    && final(self).content() == old(self).content(),
                ReadOutcome::Failed => r == Err::<bool, RuntimeError>(RuntimeError::StdinTimeout)
                    && final(self).content() == old(self).content(),
            },
    {
        match outcome {
            ReadOutcome::Bytes(chunk) => {
                let done: bool = chunk.len() == 0;
                self.bytes.extend_from_slice(chunk.as_slice());
                assert(self.bytes@ =~= old(self).bytes@ + chunk@);
                Ok(done)
            },
            ReadOutcome::Interrupted => Ok(false),
            ReadOutcome::Failed => Err(RuntimeError::StdinTimeout),
        }
    }

    pub fn into_bytes(self) -> (bytes: Vec<u8>)
        ensures
            bytes@ == self.content(),
    {
        self.bytes
    }
}

/// One reading of the clock and the read that followed it.
#[derive(Debug)]
pub struct InputObservation {
    pub elapsed_ms: u128,
    pub outcome: ReadOutcome,
}

/// What a bounded read comes to after the given observations: the document,
/// an error, or nothing yet.
pub enum StdinOutcome {
    Complete(Seq<u8>),
    Stopped(RuntimeError),
    Unfinished,
}

pub open spec fn stdin_outcome(
    clock: EntryClock,
    read: Seq<InputObservation>,
    held: Seq<u8>,
    max_bytes: nat,
) -> StdinOutcome
    decreases read.len(),
{
    if read.len() == 0 {
        StdinOutcome::Unfinished
    } else if clock_time(read[0].elapsed_ms) >= clock.limits().latest_work_ms() {
        StdinOutcome::Stopped(RuntimeError::StdinTimeout)
    } else if held.len() >= max_bytes {
        StdinOutcome::Stopped(
            RuntimeError::Deadline(
                LimitError::AboveLimit {
                    name: "hook_stdin",
                    observed: (held.len() + 1) as u128,
                    limit: max_bytes as u128,
                    unit: LimitUnit::Bytes,
                },
            ),
        )
    } else {
        match read[0].outcome {
            ReadOutcome::Bytes(chunk) => if chunk@.len() == 0 {
                StdinOutcome::Complete(held)
            } else {
                stdin_outcome(clock, read.skip(1), held + chunk@, max_bytes)
            },
            ReadOutcome::Interrupted => stdin_outcome(clock, read.skip(1), held, max_bytes),
            ReadOutcome::Failed => StdinOutcome::Stopped(RuntimeError::StdinTimeout),
        }
    }
}

/// Every read gave at most what was asked for.
pub open spec fn reads_fit(read: Seq<InputObservation>, held: nat, max_bytes: nat) -> bool
    decreases read.len(),
{
    if read.len() == 0 {
        true
    } else {
        match read[0].outcome {
            ReadOutcome::Bytes(chunk) => held + chunk@.len() <= max_bytes && chunk@.len()
                <= READ_CHUNK_BYTES && reads_fit(read.skip(1), held + chunk@.len(), max_bytes),
            _ => reads_fit(read.skip(1), held, max_bytes),
        }
    }
}

/// Bound a read of the input by the work window and by its size. The
/// observations are the clock readings and the reads in order; where they end
/// before the input does, nothing comes out.
pub fn read_stdin_before_cleanup(
    clock: &EntryClock,
    reads: Vec<InputObservation>,
    max_bytes: usize,
) -> (r: Option<Result<Vec<u8>, RuntimeError>>)
    requires
        reads_fit(reads@, 0, max_bytes as nat),
    ensures
        match stdin_outcome(*clock, reads@, Seq::empty(), max_bytes as nat) {
            StdinOutcome::Complete(bytes) => r is Some && r->0 is Ok && r->0->Ok_0@ == bytes,
            StdinOutcome::Stopped(error) => r == Some(Err::<Vec<u8>, RuntimeError>(error)),
            StdinOutcome::Unfinished => r is None,
        },
{
    let mut state: StdinRead = StdinRead::new(max_bytes);
    let ghost all = reads@;
    let total: usize = reads.len();
    let mut i: usize = 0;
    assert(all.skip(0) =~= all);
    assert(state.content() =~= Seq::empty());
    while i < total
        invariant
            i <= total,
            total == reads@.len(),
            all == reads@,
            state.inv(),
            state.limit() == max_bytes,
            reads_fit(all.skip(i as int), state.content().len(), max_bytes as nat),
            stdin_outcome(*clock, all, Seq::empty(), max_bytes as nat) == stdin_outcome(
                *clock,
                all.skip(i as int),
                state.content(),
                max_bytes as nat,
            ),
        decreases total - i,
    {
        assert(all.skip(i as int)[0] == all[i as int]);
        assert(all.skip(i as int).skip(1) =~= all.skip(i + 1));
        let open: bool = clock.admit_new_work(reads[i].elapsed_ms).is_ok();
        match state.next(open) {
            StdinStep::Stop(error) => {
                return Some(Err(error));
            },
            StdinStep::Read(_) => {},
        }
        let outcome: ReadOutcome = copied_outcome(&reads[i].outcome);
        match state.take(outcome) {
            Ok(true) => {
                let ghost held = state.content();
                assert(held =~= held + Seq::<u8>::empty());
                return Some(Ok(state.into_bytes()));
            },
            Ok(false) => {},
            Err(error) => {
                return Some(Err(error));
            },
        }
        i += 1;
    }
    None
}

fn copied_outcome(outcome: &ReadOutcome) -> (copy: ReadOutcome)
    ensures
        match *outcome {
            ReadOutcome::Bytes(chunk) => copy is Bytes && copy->Bytes_0@ == chunk@,
            ReadOutcome::Interrupted => copy is Interrupted,
            ReadOutcome::Failed => copy is Failed,
        },
{
    match outcome {
        ReadOutcome::Bytes(chunk) => {
            let mut bytes: Vec<u8> = Vec::new();
            bytes.extend_from_slice(chunk.as_slice());
            assert(bytes@ =~= chunk@);
            ReadOutcome::Bytes(bytes)
        },
        ReadOutcome::Interrupted => ReadOutcome::Interrupted,
        ReadOutcome::Failed => ReadOutcome::Failed,
    }
}

/// Work and publication share one window: what completes while new work may
/// still start, and is emitted before expiry, is published; what completes in
/// the reserve never is, however soon it is emitted.
pub proof fn reserve_publishes_nothing(
    deadline: InvocationDeadline,
    completed_at: MonotonicMillis,
    now: MonotonicMillis,
)
    requires
        deadline.inv(),
        completed_at.0 <= now.0,
    ensures
        deadline.remaining_work(completed_at) == 0 ==> is_late(deadline, completed_at, now),
        deadline.remaining_life(now) == 0 ==> is_late(deadline, completed_at, now),
        deadline.remaining_work(completed_at) > 0 && deadline.remaining_life(now) > 0 ==> !is_late(
            deadline,
            completed_at,
            now,
        ),
        deadline.remaining_work(now) <= deadline.remaining_life(now),
{
}

/// A document that was read whole is shorter than the limit.
pub proof fn complete_input_is_below_the_limit(
    clock: EntryClock,
    read: Seq<InputObservation>,
    held: Seq<u8>,
    max_bytes: nat,
)
    requires
        stdin_outcome(clock, read, held, max_bytes) is Complete,
    ensures
        stdin_outcome(clock, read, held, max_bytes)->Complete_0.len() < max_bytes,
    decreases read.len(),
{
    match read[0].outcome {
        ReadOutcome::Bytes(chunk) => {
            if chunk@.len() > 0 {
                complete_input_is_below_the_limit(clock, read.skip(1), held + chunk@, max_bytes);
            }
        },
        ReadOutcome::Interrupted => {
            complete_input_is_below_the_limit(clock, read.skip(1), held, max_bytes);
        },
        ReadOutcome::Failed => {},
    }
}

} // verus!
