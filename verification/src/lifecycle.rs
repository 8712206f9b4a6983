use vstd::prelude::*;

verus! {

/// The stages a foreign table-of-contents resource passes through: it is
/// allocated, one population attempt succeeds or fails, and it is released
/// at the end of either path.
#[derive(Clone, Copy, Debug, PartialEq, Eq, Structural)]
pub enum HandleState {
    Allocated,
    Populated,
    Failed,
    Released,
}

/// What the holder of the resource does next: attempt to populate it, with
/// the outcome the backend reported, or release it.
#[derive(Clone, Copy, Debug, PartialEq, Eq, Structural)]
pub enum HandleEvent {
    PopulateOk,
    PopulateFailed,
    Release,
}

/// The lifecycle's transition relation: population is attempted once, on
/// the freshly allocated resource; release ends either outcome, the failed
/// one included; a released resource accepts nothing further.
pub open spec fn step(s: HandleState, e: HandleEvent) -> Option<HandleState> {
    match (s, e) {
        (HandleState::Allocated, HandleEvent::PopulateOk) => Some(HandleState::Populated),
        (HandleState::Allocated, HandleEvent::PopulateFailed) => Some(HandleState::Failed),
        (HandleState::Populated, HandleEvent::Release) => Some(HandleState::Released),
        (HandleState::Failed, HandleEvent::Release) => Some(HandleState::Released),
        _ => None,
    }
}

/// Runs the lifecycle over a whole event history; `None` when some event
/// was not allowed in the state it met.
pub open spec fn run(s: HandleState, events: Seq<HandleEvent>) -> Option<HandleState>
    decreases events.len(),
{
    if events.len() == 0 {
        Some(s)
    } else {
        match step(s, events[0]) {
            Some(s1) => run(s1, events.skip(1)),
            None => None,
        }
    }
}

/// How many release events a history holds.
pub open spec fn release_count(events: Seq<HandleEvent>) -> int
    decreases events.len(),
{
    if events.len() == 0 {
        0
    } else {
        (if events[0] is Release {
            1int
        } else {
            0int
        }) + release_count(events.skip(1))
    }
}

/// A released resource accepts no event, so a legal history from the
/// released state is empty.
pub proof fn lemma_released_is_terminal(events: Seq<HandleEvent>, t: HandleState)
    requires
        run(HandleState::Released, events) == Some(t),
    ensures
        events.len() == 0,
        t is Released,
{
}

/// Release happens exactly once per handle, whatever the construction
/// outcome: a legal event history that carries the resource to the
/// released state holds exactly one release event, and a history that
/// stops short of it holds none.
pub proof fn lemma_release_exactly_once(s: HandleState, events: Seq<HandleEvent>, t: HandleState)
    requires
        run(s, events) == Some(t),
        !(s is Released),
    ensures
        release_count(events) == if t is Released {
            1int
        } else {
            0int
        },
    decreases events.len(),
{
    if events.len() == 0 {
        assert(t == s);
    } else {
        match step(s, events[0]) {
            Some(s1) => {
                assert(run(s1, events.skip(1)) == Some(t));
                if s1 is Released {
                    lemma_released_is_terminal(events.skip(1), t);
                    assert(events[0] is Release);
                    assert(release_count(events.skip(1)) == 0);
                    assert(release_count(events) == 1);
                } else {
                    lemma_release_exactly_once(s1, events.skip(1), t);
                    assert(!(events[0] is Release));
                    assert(release_count(events) == release_count(events.skip(1)));
                }
            },
            None => {
                assert(false);
            },
        }
    }
}

/// Computes one lifecycle transition, for the driver that owns the foreign
/// resource; `None` means the event is not legal in the state it met.
pub fn step_exec(s: HandleState, e: HandleEvent) -> (r: Option<HandleState>)
    ensures
        r == step(s, e),
{
    match (s, e) {
        (HandleState::Allocated, HandleEvent::PopulateOk) => Some(HandleState::Populated),
        (HandleState::Allocated, HandleEvent::PopulateFailed) => Some(HandleState::Failed),
        (HandleState::Populated, HandleEvent::Release) => Some(HandleState::Released),
        (HandleState::Failed, HandleEvent::Release) => Some(HandleState::Released),
        _ => None,
    }
}

} // verus!
