//! The two domain enums and their wire tokens.
//!
//! The device speaks in lowercase tokens `"on"`, `"off"`, `"stay"`.  The
//! mapping between enum values and tokens is written out explicitly in both
//! directions, so the wire contract does not depend on identifier spelling.

use vstd::prelude::*;

use crate::text::str_eq;

verus! {

/// Position of the switch on an outlet.
#[derive(Debug, Clone, Copy, PartialEq, Eq, Structural)]
pub enum SwitchPosition {
    On,
    Off,
}

/// Position a switch assumes when the device powers on.
///
/// `Stay` means the outlet keeps its last known position.
#[derive(Debug, Clone, Copy, PartialEq, Eq, Structural)]
pub enum StartupPosition {
    On,
    Off,
    Stay,
}

/// Wire token for a switch position.
pub open spec fn spec_switch_token(p: SwitchPosition) -> Seq<char> {
    match p {
        SwitchPosition::On => "on"@,
        SwitchPosition::Off => "off"@,
    }
}

/// Wire token for a startup position.
pub open spec fn spec_startup_token(p: StartupPosition) -> Seq<char> {
    match p {
        StartupPosition::On => "on"@,
        StartupPosition::Off => "off"@,
        StartupPosition::Stay => "stay"@,
    }
}

/// The switch position whose token is `s`, if any.
pub open spec fn spec_parse_switch_token(s: Seq<char>) -> Option<SwitchPosition> {
    if s == spec_switch_token(SwitchPosition::On) {
        Some(SwitchPosition::On)
    } else if s == spec_switch_token(SwitchPosition::Off) {
        Some(SwitchPosition::Off)
    } else {
        None
    }
}

/// The startup position whose token is `s`, if any.
pub open spec fn spec_parse_startup_token(s: Seq<char>) -> Option<StartupPosition> {
    if s == spec_startup_token(StartupPosition::On) {
        Some(StartupPosition::On)
    } else if s == spec_startup_token(StartupPosition::Off) {
        Some(StartupPosition::Off)
    } else if s == spec_startup_token(StartupPosition::Stay) {
        Some(StartupPosition::Stay)
    } else {
        None
    }
}

impl SwitchPosition {
    /// The wire token for this position.
    pub fn token(self) -> (r: &'static str)
        ensures
            r@ == spec_switch_token(self),
    {
        match self {
            SwitchPosition::On => "on",
            SwitchPosition::Off => "off",
        }
    }

    /// Reads a wire token back into a position; `None` on any other string.
    pub fn from_token(s: &str) -> (r: Option<SwitchPosition>)
        ensures
            r == spec_parse_switch_token(s@),
    {
        if str_eq(s, "on") {
            Some(SwitchPosition::On)
        } else if str_eq(s, "off") {
            Some(SwitchPosition::Off)
        } else {
            None
        }
    }
}

impl StartupPosition {
    /// The wire token for this position.
    pub fn token(self) -> (r: &'static str)
        ensures
            r@ == spec_startup_token(self),
    {
        match self {
            StartupPosition::On => "on",
            StartupPosition::Off => "off",
            StartupPosition::Stay => "stay",
        }
    }

    /// Reads a wire token back into a position; `None` on any other string.
    pub fn from_token(s: &str) -> (r: Option<StartupPosition>)
        ensures
            r == spec_parse_startup_token(s@),
    {
        if str_eq(s, "on") {
            Some(StartupPosition::On)
        } else if str_eq(s, "off") {
            Some(StartupPosition::Off)
        } else if str_eq(s, "stay") {
            Some(StartupPosition::Stay)
        } else {
            None
        }
    }
}

/// Writing a switch position and reading the token back yields the same
/// position, for every position.
pub proof fn lemma_switch_token_round_trip(p: SwitchPosition)
    ensures
        spec_parse_switch_token(spec_switch_token(p)) == Some(p),
{
    reveal_strlit("on");
    reveal_strlit("off");
    assert("on"@.len() == 2);
    assert("off"@.len() == 3);
}

/// Writing a startup position and reading the token back yields the same
/// position, for every position.
pub proof fn lemma_startup_token_round_trip(p: StartupPosition)
    ensures
        spec_parse_startup_token(spec_startup_token(p)) == Some(p),
{
    reveal_strlit("on");
    reveal_strlit("off");
    reveal_strlit("stay");
    assert("on"@.len() == 2);
    assert("off"@.len() == 3);
    assert("stay"@.len() == 4);
}

} // verus!
