//! The status indicator: what is remembered of it, and the level its pin is
//! to be driven to.

use vstd::prelude::*;

verus! {

/// Level of an output pin.
#[derive(Clone, Copy, Debug, PartialEq, Eq)]
pub enum PinLevel {
    Low,
    High,
}

/// The pin level that shows the indicator lit or dark.
pub open spec fn level_for(on: bool) -> PinLevel {
    if on {
        PinLevel::High
    } else {
        PinLevel::Low
    }
}

/// The status indicator. Its view is whether it is lit.
pub struct Led {
    is_on: bool,
}

impl View for Led {
    type V = bool;

    closed spec fn view(&self) -> bool {
        self.is_on
    }
}

impl Led {
    /// An indicator that is dark.
    pub fn new() -> (led: Led)
        ensures
            !led@,
    {
        Led { is_on: false }
    }

    /// Whether the indicator is lit.
    pub fn is_on(&self) -> (on: bool)
        ensures
            on == self@,
    {
        self.is_on
    }

    /// Lights or darkens the indicator. Returns the level to drive its pin to.
    pub fn set(&mut self, on: bool) -> (level: PinLevel)
        ensures
            final(self)@ == on,
            level == level_for(on),
    {
        self.is_on = on;
        if on {
            PinLevel::High
        } else {
            PinLevel::Low
        }
    }

    /// Flips the indicator. Returns the level to drive its pin to.
    pub fn toggle(&mut self) -> (level: PinLevel)
        ensures
            final(self)@ == !old(self)@,
            level == level_for(!old(self)@),
    {
        let on: bool = !self.is_on;
        self.set(on)
    }
}

} // verus!
