use vstd::prelude::*;

verus! {

/// A registered user, identified by the address reminders are sent to.
#[derive(Debug)]
pub struct User {
    pub id: i32,
    pub email: String,
}

/// The fields a new user is created with.
pub struct NewUser<'a> {
    pub email: &'a str,
}

/// A piece of text that is periodically sent back to its owner.
#[derive(Debug)]
pub struct Memory {
    pub id: i32,
    pub user_id: i32,
    pub topic: Option<String>,
    pub text: String,
}

/// The fields a new memory is created with.
pub struct NewMemory<'a> {
    pub user_id: i32,
    pub topic: Option<&'a str>,
    pub text: &'a str,
}

/// One stage of the repetition sequence: `seconds_to_wait` is the wait
/// that leads into this stage from the one before it.
#[derive(Clone, Copy, Debug, PartialEq, Eq)]
pub struct Phase {
    pub id: i32,
    pub number: i32,
    pub seconds_to_wait: i64,
}

/// The fields a new schedule is created with.
#[derive(Debug, PartialEq, Eq)]
pub struct NewSchedule {
    pub memory_id: i32,
    pub phase_number: i32,
    pub next_run: Option<i64>,
}

/// Progress of one memory through the phases. `next_run == None` marks a
/// schedule whose sequence is complete.
#[derive(Clone, Copy, Debug, PartialEq, Eq)]
pub struct Schedule {
    pub id: i32,
    pub memory_id: i32,
    pub phase_number: i32,
    pub next_run: Option<i64>,
}

/// A memory together with its owner.
#[derive(Debug)]
pub struct MemoryWithUser {
    pub memory: Memory,
    pub user: User,
}

/// A schedule together with the memory it sends and the owner it sends to.
#[derive(Debug)]
pub struct ScheduleWithMemoryAndUser {
    pub schedule: Schedule,
    pub memory_with_user: MemoryWithUser,
}

/// The state a schedule starts in: phase 1, due at its creation time.
pub fn initial_schedule(memory_id: i32, now: i64) -> (r: NewSchedule)
    ensures
        r.memory_id == memory_id,
        r.phase_number == 1,
        r.next_run == Some(now),
{
    NewSchedule { memory_id, phase_number: 1, next_run: Some(now) }
}

} // verus!
