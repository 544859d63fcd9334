//! Decoded response envelopes and their interpretation into domain values.
//!
//! The device wraps every answer in `{"data": <T | null>, "error": N}`.  The
//! structures here are that envelope after the JSON codec has run, with the
//! wire tokens still raw strings; the interpreter turns an envelope into a
//! domain value or a typed [`Error`], and never panics, whatever the device
//! sent.

use vstd::prelude::*;

use crate::error::Error;
use crate::error::spec_error_of_code;
use crate::positions::StartupPosition;
use crate::positions::SwitchPosition;
use crate::positions::lemma_startup_token_round_trip;
use crate::positions::lemma_switch_token_round_trip;
use crate::positions::spec_parse_startup_token;
use crate::positions::spec_parse_switch_token;
use crate::positions::spec_startup_token;
use crate::positions::spec_switch_token;

verus! {

/// One entry of a response's `switches` list: the switch token reported for
/// one outlet.
#[derive(Debug, PartialEq)]
pub struct Switch {
    /// Raw wire token, normally `"on"` or `"off"`.
    pub switch: String,
    /// Outlet index the entry speaks of.
    pub outlet: u8,
}

/// One entry of a response's `configure` list: the startup token reported
/// for one outlet.
#[derive(Debug, PartialEq)]
pub struct Startup {
    /// Raw wire token, normally `"on"`, `"off"` or `"stay"`.
    pub startup: String,
    /// Outlet index the entry speaks of.
    pub outlet: u8,
}

/// The `data` member of a successful info response: per-outlet lists.
#[derive(Debug, PartialEq)]
pub struct InfoData {
    /// Current switch position per outlet.
    pub switches: Vec<Switch>,
    /// Startup position per outlet.
    pub configure: Vec<Startup>,
}

/// The decoded envelope of an info response: `{"data":..,"error":N}`.
#[derive(Debug, PartialEq)]
pub struct InfoResponse {
    /// Payload; `None` where the wire had `null` or nothing.
    pub data: Option<InfoData>,
    /// Device error code; zero means acceptance.
    pub error: usize,
}

/// The decoded envelope of a set operation's response: only the error code
/// carries meaning.
#[derive(Debug, Clone, Copy, PartialEq, Eq, Structural)]
pub struct EmptyResponse {
    /// Device error code; zero means acceptance.
    pub error: usize,
}

/// Device state for outlet 0, as reported by an info response.
#[derive(Debug, Clone, Copy, PartialEq, Eq, Structural)]
pub struct Info {
    /// Current switch position on outlet 0.
    pub switch: SwitchPosition,
    /// Switch position on startup on outlet 0.
    pub startup: StartupPosition,
}

/// The switch token of the first `switches` entry for outlet 0, if any.
pub open spec fn spec_switch_token_at_outlet0(s: Seq<Switch>) -> Option<Seq<char>>
    decreases s.len(),
{
    if s.len() == 0 {
        None
    } else if s[0].outlet == 0 {
        Some(s[0].switch@)
    } else {
        spec_switch_token_at_outlet0(s.drop_first())
    }
}

/// The startup token of the first `configure` entry for outlet 0, if any.
pub open spec fn spec_startup_token_at_outlet0(s: Seq<Startup>) -> Option<Seq<char>>
    decreases s.len(),
{
    if s.len() == 0 {
        None
    } else if s[0].outlet == 0 {
        Some(s[0].startup@)
    } else {
        spec_startup_token_at_outlet0(s.drop_first())
    }
}

/// What interpreting an info envelope yields: the typed error for a nonzero
/// code; otherwise the outlet-0 positions, or `MalformedResponse` where the
/// payload is absent, an outlet-0 entry is missing, or a token is not a
/// known one.
pub open spec fn spec_interpret_info(r: InfoResponse) -> Result<Info, Error> {
    if r.error != 0 {
        Err(spec_error_of_code(r.error))
    } else {
        match r.data {
            None => Err(Error::MalformedResponse),
            Some(d) => match (
                spec_switch_token_at_outlet0(d.switches@),
                spec_startup_token_at_outlet0(d.configure@),
            ) {
                (Some(swt), Some(stt)) => match (
                    spec_parse_switch_token(swt),
                    spec_parse_startup_token(stt),
                ) {
                    (Some(sw), Some(st)) => Ok(Info { switch: sw, startup: st }),
                    _ => Err(Error::MalformedResponse),
                },
                _ => Err(Error::MalformedResponse),
            },
        }
    }
}

/// What interpreting a set operation's envelope yields: success exactly on
/// error code zero.
pub open spec fn spec_interpret_empty(r: EmptyResponse) -> Result<(), Error> {
    if r.error == 0 {
        Ok(())
    } else {
        Err(spec_error_of_code(r.error))
    }
}

fn find_switch_outlet0(v: &Vec<Switch>) -> (r: Option<usize>)
    ensures
        match r {
            Some(i) => i < v@.len() && v@[i as int].outlet == 0 && spec_switch_token_at_outlet0(
                v@,
            ) == Some(v@[i as int].switch@),
            None => spec_switch_token_at_outlet0(v@) is None,
        },
{
    let mut i: usize = 0;
    proof {
        assert(v@.skip(0) =~= v@);
    }
    while i < v.len()
        invariant
            i <= v@.len(),
            spec_switch_token_at_outlet0(v@) == spec_switch_token_at_outlet0(v@.skip(i as int)),
        decreases v@.len() - i,
    {
        proof {
            assert(v@.skip(i as int)[0] == v@[i as int]);
            assert(v@.skip(i as int).drop_first() =~= v@.skip(i as int + 1));
        }
        if v[i].outlet == 0 {
            return Some(i);
        }
        i = i + 1;
    }
    proof {
        assert(v@.skip(i as int) =~= Seq::<Switch>::empty());
    }
    None
}

fn find_startup_outlet0(v: &Vec<Startup>) -> (r: Option<usize>)
    ensures
        match r {
            Some(i) => i < v@.len() && v@[i as int].outlet == 0 && spec_startup_token_at_outlet0(
                v@,
            ) == Some(v@[i as int].startup@),
            None => spec_startup_token_at_outlet0(v@) is None,
        },
{
    let mut i: usize = 0;
    proof {
        assert(v@.skip(0) =~= v@);
    }
    while i < v.len()
        invariant
            i <= v@.len(),
            spec_startup_token_at_outlet0(v@) == spec_startup_token_at_outlet0(v@.skip(i as int)),
        decreases v@.len() - i,
    {
        proof {
            assert(v@.skip(i as int)[0] == v@[i as int]);
            assert(v@.skip(i as int).drop_first() =~= v@.skip(i as int + 1));
        }
        if v[i].outlet == 0 {
            return Some(i);
        }
        i = i + 1;
    }
    proof {
        assert(v@.skip(i as int) =~= Seq::<Startup>::empty());
    }
    None
}

impl Info {
    /// Interprets a decoded info envelope: a nonzero code becomes the typed
    /// error; a success envelope yields the outlet-0 positions, and
    /// `MalformedResponse` where the payload is absent, an outlet-0 entry is
    /// missing from either list, or a token is unknown.
    pub fn try_from(value: InfoResponse) -> (r: Result<Info, Error>)
        ensures
            r == spec_interpret_info(value),
    {
        if value.error != 0 {
            return Err(Error::from_api_error_code(value.error));
        }
        match value.data {
            None => Err(Error::MalformedResponse),
            Some(d) => {
                let swi = find_switch_outlet0(&d.switches);
                let sti = find_startup_outlet0(&d.configure);
                match (swi, sti) {
                    (Some(i), Some(j)) => {
                        let swt = SwitchPosition::from_token(d.switches[i].switch.as_str());
                        let stt = StartupPosition::from_token(d.configure[j].startup.as_str());
                        match (swt, stt) {
                            (Some(sw), Some(st)) => Ok(Info { switch: sw, startup: st }),
                            _ => Err(Error::MalformedResponse),
                        }
                    },
                    _ => Err(Error::MalformedResponse),
                }
            },
        }
    }

    /// The success envelope that reports exactly this state for outlet 0:
    /// one `switches` entry and one `configure` entry, both for outlet 0,
    /// carrying the wire tokens of the two positions.
    pub fn into_response(self) -> (r: InfoResponse)
        ensures
            r.error == 0,
            r.data is Some,
            r.data->Some_0.switches@.len() == 1,
            r.data->Some_0.switches@[0].outlet == 0,
            r.data->Some_0.switches@[0].switch@ == spec_switch_token(self.switch),
            r.data->Some_0.configure@.len() == 1,
            r.data->Some_0.configure@[0].outlet == 0,
            r.data->Some_0.configure@[0].startup@ == spec_startup_token(self.startup),
    {
        let switches = vec![Switch { switch: self.switch.token().to_owned(), outlet: 0 }];
        let configure = vec![Startup { startup: self.startup.token().to_owned(), outlet: 0 }];
        InfoResponse { data: Some(InfoData { switches, configure }), error: 0 }
    }
}

impl EmptyResponse {
    /// Interprets a set operation's envelope: `Ok` exactly on error code
    /// zero, else the typed error for the code.
    pub fn into_result(self) -> (r: Result<(), Error>)
        ensures
            r == spec_interpret_empty(self),
    {
        if self.error == 0 {
            Ok(())
        } else {
            Err(Error::from_api_error_code(self.error))
        }
    }
}

/// Round trip: a success envelope that reports exactly the state `info` for
/// outlet 0 — as [`Info::into_response`] builds it — interprets back to
/// `info`, for every combination of the two positions.
pub proof fn lemma_info_round_trip(r: InfoResponse, info: Info)
    requires
        r.error == 0,
        r.data is Some,
        r.data->Some_0.switches@.len() == 1,
        r.data->Some_0.switches@[0].outlet == 0,
        r.data->Some_0.switches@[0].switch@ == spec_switch_token(info.switch),
        r.data->Some_0.configure@.len() == 1,
        r.data->Some_0.configure@[0].outlet == 0,
        r.data->Some_0.configure@[0].startup@ == spec_startup_token(info.startup),
    ensures
        spec_interpret_info(r) == Ok::<Info, Error>(info),
{
    lemma_switch_token_round_trip(info.switch);
    lemma_startup_token_round_trip(info.startup);
}

} // verus!
