//! The state and counters a file operation shares with whoever controls it, and
//! the decisions taken on them. The shared cells (atomics), the wake-ups and the
//! progress ratio live with the caller; what a stored value means, and what is
//! done about it, is decided here.

use vstd::prelude::*;

verus! {

/// Where an operation stands.
#[derive(Clone, Copy, Debug, PartialEq, Eq, Structural)]
pub enum ControllerState {
    Cancelled,
    Failed,
    Paused,
    Running,
}

/// The number a state is stored as: its position in the declaration.
pub open spec fn state_code(s: ControllerState) -> u16 {
    match s {
        ControllerState::Cancelled => 0,
        ControllerState::Failed => 1,
        ControllerState::Paused => 2,
        ControllerState::Running => 3,
    }
}

/// The state a stored number stands for; a number that stands for none reads as
/// `Failed`.
pub open spec fn state_of_code(c: u16) -> ControllerState {
    if c == 0 {
        ControllerState::Cancelled
    } else if c == 1 {
        ControllerState::Failed
    } else if c == 2 {
        ControllerState::Paused
    } else if c == 3 {
        ControllerState::Running
    } else {
        ControllerState::Failed
    }
}

impl ControllerState {
    /// The number this state is stored as.
    pub fn to_code(self) -> (r: u16)
        ensures
            r == state_code(self),
    {
        match self {
            ControllerState::Cancelled => 0,
            ControllerState::Failed => 1,
            ControllerState::Paused => 2,
            ControllerState::Running => 3,
        }
    }

    /// The state a stored number stands for, `Failed` for any other number.
    pub fn from_code(c: u16) -> (r: ControllerState)
        ensures
            r == state_of_code(c),
    {
        if c == 0 {
            ControllerState::Cancelled
        } else if c == 1 {
            ControllerState::Failed
        } else if c == 2 {
            ControllerState::Paused
        } else if c == 3 {
            ControllerState::Running
        } else {
            ControllerState::Failed
        }
    }
}

/// A stored state reads back as the state that was stored.
pub proof fn lemma_state_code_roundtrip(s: ControllerState)
    ensures
        state_of_code(state_code(s)) == s,
{
}

/// What `check` does in a state: go on (`Some(Ok)`), stop with the state
/// (`Some(Err)`), or wait for the next change (`None`, while paused).
pub open spec fn check_outcome(s: ControllerState) -> Option<Result<(), ControllerState>> {
    match s {
        ControllerState::Cancelled => Some(Err(ControllerState::Cancelled)),
        ControllerState::Failed => Some(Err(ControllerState::Failed)),
        ControllerState::Paused => None,
        ControllerState::Running => Some(Ok(())),
    }
}

/// One round of `check`: whether the operation may go on in state `s`, must stop,
/// or has to wait for the state to change.
pub fn check_step(s: ControllerState) -> (r: Option<Result<(), ControllerState>>)
    ensures
        r == check_outcome(s),
{
    match s {
        ControllerState::Cancelled => Some(Err(ControllerState::Cancelled)),
        ControllerState::Failed => Some(Err(ControllerState::Failed)),
        ControllerState::Paused => None,
        ControllerState::Running => Some(Ok(())),
    }
}

/// `until_paused` returns once the state is paused.
pub fn paused_reached(s: ControllerState) -> (r: bool)
    ensures
        r == (s == ControllerState::Paused),
{
    s == ControllerState::Paused
}

/// `until_unpaused` returns once the state is neither paused, cancelled, nor failed.
pub fn unpaused_reached(s: ControllerState) -> (r: bool)
    ensures
        r == !(s == ControllerState::Paused || s == ControllerState::Cancelled || s
            == ControllerState::Failed),
{
    !(s == ControllerState::Paused || s == ControllerState::Cancelled || s == ControllerState::Failed)
}

/// Whether `unpause` sets the state to running: when it is not cancelled, or not
/// failed.
pub fn unpause_resumes(s: ControllerState) -> (r: bool)
    ensures
        r == (!(s == ControllerState::Cancelled) || !(s == ControllerState::Failed)),
{
    !(s == ControllerState::Cancelled) || !(s == ControllerState::Failed)
}

/// No state is both cancelled and failed, so `unpause` always resumes, a
/// cancelled or failed operation included.
pub proof fn lemma_unpause_always_resumes(s: ControllerState)
    ensures
        !(s == ControllerState::Cancelled) || !(s == ControllerState::Failed),
{
}

/// Whether dropping a controller cancels its operation: the primary one does,
/// unless the operation failed.
pub fn cancels_on_drop(primary: bool, s: ControllerState) -> (r: bool)
    ensures
        r == (primary && s != ControllerState::Failed),
{
    primary && s != ControllerState::Failed
}

/// What an operation has done so far, as far as it can tell.
///
/// `bytes_total` is zero when the operation cannot know the volume up front -
/// emptying the trash, for instance. Zero means unknown, not empty: an operation
/// with nothing to do never reaches the window at all.
#[derive(Clone, Copy, Debug, Default, PartialEq, Eq, Structural)]
pub struct Counts {
    pub items_done: u64,
    pub items_total: u64,
    pub bytes_done: u64,
    pub bytes_total: u64,
}

/// A done count as shown against its total: clamped to a known total.
pub open spec fn clamp_done(done: u64, total: u64) -> u64 {
    if total > 0 && done > total {
        total
    } else {
        done
    }
}

impl Counts {
    /// Volume is known and non-empty, so a rate over it says something.
    pub fn has_bytes(&self) -> (r: bool)
        ensures
            r == (self.bytes_total > 0),
    {
        self.bytes_total > 0
    }

    /// One snapshot of the four counters as read. A done count is clamped to its
    /// total when the total is known (non-zero): a file that grew between the
    /// survey and the copy must not show more done than there is.
    pub fn from_counters(items_done: u64, items_total: u64, bytes_done: u64, bytes_total: u64) -> (r:
        Counts)
        ensures
            r.items_total == items_total,
            r.bytes_total == bytes_total,
            r.items_done == clamp_done(items_done, items_total),
            r.bytes_done == clamp_done(bytes_done, bytes_total),
    {
        Counts {
            items_done: if items_total > 0 && items_done > items_total {
                items_total
            } else {
                items_done
            },
            items_total,
            bytes_done: if bytes_total > 0 && bytes_done > bytes_total {
                bytes_total
            } else {
                bytes_done
            },
            bytes_total,
        }
    }
}

/// A snapshot never shows more done than a known total, and keeps whatever was
/// read when the total is unknown or not exceeded.
pub proof fn lemma_snapshot_within_totals(items_done: u64, items_total: u64, bytes_done: u64, bytes_total: u64)
    ensures
        items_total > 0 ==> clamp_done(items_done, items_total) <= items_total,
        bytes_total > 0 ==> clamp_done(bytes_done, bytes_total) <= bytes_total,
        (items_total == 0 || items_done <= items_total) ==> clamp_done(items_done, items_total)
            == items_done,
        (bytes_total == 0 || bytes_done <= bytes_total) ==> clamp_done(bytes_done, bytes_total)
            == bytes_done,
{
}

} // verus!
