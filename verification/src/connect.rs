//! Waiting for the network: while the interface is down the indicator
//! blinks, one flip per poll; once it is up the indicator goes dark.

use vstd::prelude::*;
use crate::led::{level_for, Led, PinLevel};

verus! {

/// Time between two polls of the interface, in milliseconds.
pub const CONNECT_POLL_MILLIS: u32 = 1000;

/// What the caller is to do after one poll of the interface.
#[derive(Clone, Copy, Debug, PartialEq, Eq)]
pub enum ConnectStep {
    /// The interface is down: drive the indicator to `level`, wait
    /// `pause_ms` milliseconds, and poll again.
    Wait { level: PinLevel, pause_ms: u32 },
    /// The interface is up: drive the indicator to `level` and go on.
    Connected { level: PinLevel },
}

/// The indicator and the step that follow one poll.
pub open spec fn connect_polled(lit: bool, is_up: bool) -> (bool, ConnectStep) {
    if is_up {
        (false, ConnectStep::Connected { level: PinLevel::Low })
    } else {
        (!lit, ConnectStep::Wait { level: level_for(!lit), pause_ms: CONNECT_POLL_MILLIS })
    }
}

/// The indicator after `polls` polls that all found the interface down.
pub open spec fn blinked(lit: bool, polls: nat) -> bool
    decreases polls,
{
    if polls == 0 {
        lit
    } else {
        connect_polled(blinked(lit, (polls - 1) as nat), false).0
    }
}

/// While the interface stays down the indicator flips at every poll: it
/// shows its first state again after every even number of polls. However
/// long the wait was, the poll that finds the interface up leaves it dark.
pub proof fn lemma_blinks_then_dark(lit: bool, polls: nat)
    ensures
        blinked(lit, polls) == (if polls % 2 == 0 { lit } else { !lit }),
        !connect_polled(blinked(lit, polls), true).0,
        connect_polled(blinked(lit, polls), true).1 == (ConnectStep::Connected {
            level: PinLevel::Low,
        }),
    decreases polls,
{
    if polls > 0 {
        lemma_blinks_then_dark(lit, (polls - 1) as nat);
    }
}

/// Decides what follows one poll of the interface, and updates the
/// indicator accordingly.
pub fn connect_step(led: &mut Led, is_up: bool) -> (step: ConnectStep)
    ensures
        (final(led)@, step) == connect_polled(old(led)@, is_up),
{
    if is_up {
        let level: PinLevel = led.set(false);
        ConnectStep::Connected { level }
    } else {
        let level: PinLevel = led.toggle();
        ConnectStep::Wait { level, pause_ms: CONNECT_POLL_MILLIS }
    }
}

} // verus!
