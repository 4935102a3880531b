use vstd::prelude::*;

use crate::text::str_eq;

verus! {

/// The state of the garage door.  The `Stopped`, `BlockedOpen` and
/// `EmergencyOpening` states remember the state the door was in when the
/// interruption happened.
#[derive(Debug)]
pub enum DoorState {
    Open,
    Closed,
    Opening,
    Closing,
    Stopped(Box<DoorState>),
    BlockedOpen(Box<DoorState>),
    EmergencyOpening(Box<DoorState>),
}

/// The events the door reacts to.
#[derive(Debug)]
pub enum Event {
    ButtonClicked,
    CycleCompleted,
    BlockDetected,
    BlockCleared,
}

/// The inputs on which the transition function is defined.  A stopped
/// door must have been stopped while opening or closing; a cycle can only
/// complete while the door moves or recovers from a block; block events
/// are not handled.
pub open spec fn next_state_defined(current: DoorState, event: Event) -> bool {
    match event {
        Event::ButtonClicked => match current {
            DoorState::Stopped(prev) => *prev is Opening || *prev is Closing,
            _ => true,
        },
        Event::CycleCompleted => current is Opening || current is Closing
            || current is EmergencyOpening,
        _ => false,
    }
}

/// The transition table of the door.
pub open spec fn spec_next_state(current: DoorState, event: Event) -> DoorState
    recommends
        next_state_defined(current, event),
{
    match event {
        Event::ButtonClicked => match current {
            DoorState::Open => DoorState::Closing,
            DoorState::Closed => DoorState::Opening,
            DoorState::Opening => DoorState::Stopped(Box::new(DoorState::Opening)),
            DoorState::Closing => DoorState::Stopped(Box::new(DoorState::Closing)),
            DoorState::Stopped(prev) => if *prev is Opening {
                DoorState::Closing
            } else {
                DoorState::Opening
            },
            DoorState::BlockedOpen(prev) => DoorState::BlockedOpen(prev),
            DoorState::EmergencyOpening(prev) => DoorState::EmergencyOpening(prev),
        },
        Event::CycleCompleted => match current {
            DoorState::Opening => DoorState::Open,
            DoorState::Closing => DoorState::Closed,
            DoorState::EmergencyOpening(prev) => DoorState::BlockedOpen(prev),
            _ => current,
        },
        _ => current,
    }
}

/// The next state of the door after `event`.
pub fn next_state(current_state: DoorState, event: Event) -> (next: DoorState)
    requires
        next_state_defined(current_state, event),
    ensures
        next == spec_next_state(current_state, event),
{
    match event {
        Event::ButtonClicked => match current_state {
            DoorState::Open => DoorState::Closing,
            DoorState::Closed => DoorState::Opening,
            DoorState::Opening => DoorState::Stopped(Box::new(DoorState::Opening)),
            DoorState::Closing => DoorState::Stopped(Box::new(DoorState::Closing)),
            DoorState::Stopped(x) => {
                let last_state = *x;
                match last_state {
                    DoorState::Opening => DoorState::Closing,
                    DoorState::Closing => DoorState::Opening,
                    _ => vstd::pervasive::unreached(),
                }
            },
            x => x,
        },
        Event::CycleCompleted => match current_state {
            DoorState::Opening => DoorState::Open,
            DoorState::Closing => DoorState::Closed,
            DoorState::EmergencyOpening(x) => DoorState::BlockedOpen(x),
            _ => vstd::pervasive::unreached(),
        },
        _ => vstd::pervasive::unreached(),
    }
}

/// The event named by `input`: only the two event names below are known.
pub fn string_to_event(input: &str) -> (e: Event)
    requires
        input@ == "button_clicked"@ || input@ == "cycle_complete"@,
    ensures
        input@ == "button_clicked"@ ==> e is ButtonClicked,
        input@ == "cycle_complete"@ ==> e is CycleCompleted,
{
    proof {
        reveal_strlit("button_clicked");
        reveal_strlit("cycle_complete");
        assert("button_clicked"@ != "cycle_complete"@) by {
            assert("button_clicked"@[0] == 'b');
            assert("cycle_complete"@[0] == 'c');
        }
    }
    if str_eq(input, "button_clicked") {
        Event::ButtonClicked
    } else {
        Event::CycleCompleted
    }
}

} // verus!
