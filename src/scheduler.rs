use vstd::prelude::*;
use crate::models::{Phase, Schedule, ScheduleWithMemoryAndUser};
use crate::phase::{ascending_by_one, lemma_lookup_none, lookup, Phases};

verus! {

/// Why a delivered schedule could not move on to its next state.
#[derive(Debug, PartialEq, Eq)]
pub enum TransitionError {
    /// The schedule has no next run: its sequence is already complete.
    AlreadyComplete,
}

/// What to do with a schedule once its delivery attempt has resolved.
#[derive(Debug, PartialEq, Eq)]
pub enum Step {
    /// Delivery failed: leave the schedule as it is, to be retried on a later tick.
    Retry,
    /// Delivery succeeded: persist this new state.
    Persist(Schedule),
    /// Delivery succeeded but the schedule cannot move on.
    Stuck(TransitionError),
}

/// The message to send for a due schedule.
#[derive(Debug, PartialEq, Eq)]
pub struct Delivery {
    pub address: String,
    pub subject: String,
    pub text: String,
}

/// A schedule is due at `now` when it has a next run at or before `now`.
pub open spec fn due(s: Schedule, now: int) -> bool {
    match s.next_run {
        Some(t) => t <= now,
        None => false,
    }
}

/// `x` held to the range of `i64`.
pub open spec fn clamp_i64(x: int) -> i64 {
    if x > i64::MAX {
        i64::MAX
    } else if x < i64::MIN {
        i64::MIN
    } else {
        x as i64
    }
}

/// The state a delivered schedule moves to: the next phase, due its wait
/// after the previous run time (held to the range of `i64`), or complete
/// when there is no next phase. At the largest phase number there can be no
/// next phase, so the schedule completes and keeps its number.
pub open spec fn advanced(table: Seq<Phase>, s: Schedule) -> Schedule {
    if s.phase_number == i32::MAX {
        Schedule { next_run: None, ..s }
    } else {
        Schedule {
            phase_number: (s.phase_number + 1) as i32,
            next_run: match lookup(table, s.phase_number + 1) {
                Some(ph) => Some(clamp_i64(s.next_run->0 + ph.seconds_to_wait)),
                None => None,
            },
            ..s
        }
    }
}

/// Whether `schedule` is due at `now`.
pub fn is_due(schedule: &Schedule, now: i64) -> (r: bool)
    ensures
        r == due(*schedule, now as int),
{
    match schedule.next_run {
        Some(t) => t <= now,
        None => false,
    }
}

/// The message that delivers a schedule's memory to its owner; a memory
/// without a topic is sent with an empty subject.
pub fn delivery_for(item: &ScheduleWithMemoryAndUser) -> (r: Delivery)
    ensures
        r.address@ == item.memory_with_user.user.email@,
        r.text@ == item.memory_with_user.memory.text@,
        r.subject@ == match item.memory_with_user.memory.topic {
            Some(t) => t@,
            None => Seq::<char>::empty(),
        },
{
    let subject = match &item.memory_with_user.memory.topic {
        Some(t) => t.clone(),
        None => String::new(),
    };
    Delivery {
        address: item.memory_with_user.user.email.clone(),
        subject,
        text: item.memory_with_user.memory.text.clone(),
    }
}

/// Drives schedules through the phases of one shared table.
pub struct Scheduler {
    pub phases: Phases,
}

impl Scheduler {
    pub fn new(phases: Phases) -> (r: Scheduler)
        ensures
            r.phases@ == phases@,
    {
        Scheduler { phases }
    }

    /// The state a schedule moves to after a successful delivery. The wait
    /// of the next phase is added to the previous run time, not to the
    /// current time, so late ticks do not accumulate drift. A schedule that
    /// is already complete cannot move on.
    pub fn advance(&self, schedule: &Schedule) -> (r: Result<Schedule, TransitionError>)
        ensures
            match r {
                Ok(next) => schedule.next_run is Some && next == advanced(self.phases@, *schedule),
                Err(TransitionError::AlreadyComplete) => schedule.next_run is None,
            },
    {
        let t = match schedule.next_run {
            Some(t) => t,
            None => return Err(TransitionError::AlreadyComplete),
        };
        if schedule.phase_number == i32::MAX {
            return Ok(Schedule { next_run: None, ..*schedule });
        }
        let next_phase = schedule.phase_number + 1;
        let next_run = match self.phases.get(next_phase) {
            Some(ph) => Some(
                match t.checked_add(ph.seconds_to_wait) {
                    Some(at) => at,
                    None => if ph.seconds_to_wait > 0 {
                        i64::MAX
                    } else {
                        i64::MIN
                    },
                },
            ),
            None => None,
        };
        Ok(Schedule { phase_number: next_phase, next_run, ..*schedule })
    }

    /// What to do with a schedule whose delivery attempt has resolved:
    /// nothing changes unless the delivery succeeded.
    pub fn on_delivery(&self, schedule: &Schedule, delivered: bool) -> (r: Step)
        ensures
            !delivered ==> r == Step::Retry,
            delivered && schedule.next_run is Some ==> r == Step::Persist(
                advanced(self.phases@, *schedule),
            ),
            delivered && schedule.next_run is None ==> r == Step::Stuck(
                TransitionError::AlreadyComplete,
            ),
    {
        if !delivered {
            return Step::Retry;
        }
        match self.advance(schedule) {
            Ok(next) => Step::Persist(next),
            Err(e) => Step::Stuck(e),
        }
    }
}

/// A schedule at the last phase of an ordered table completes on its next
/// successful delivery, and a complete schedule is due at no time.
pub proof fn lemma_last_phase_completes(table: Seq<Phase>, s: Schedule, now: int)
    requires
        table.len() > 0,
        ascending_by_one(table),
        s.phase_number == table.last().number,
        s.next_run is Some,
    ensures
        advanced(table, s).phase_number >= s.phase_number,
        advanced(table, s).next_run is None,
        !due(advanced(table, s), now),
{
    assert(table.last().number == table[0].number + table.len() - 1);
    assert forall|k: int| 0 <= k < table.len() implies #[trigger] table[k].number != s.phase_number
        + 1 by {
        assert(table[k].number == table[0].number + k);
    }
    lemma_lookup_none(table, s.phase_number + 1);
}

/// A schedule left unchanged by a failed delivery stays due at every later time.
pub proof fn lemma_retry_stays_due(s: Schedule, now: int, later: int)
    requires
        due(s, now),
        now <= later,
    ensures
        due(s, later),
{
}

} // verus!
