//! Typed requests for the device's three endpoints, and their exact JSON
//! wire text.
//!
//! The payload models carry one entry per outlet addressed; the encoders
//! render the precise byte-for-byte JSON shape the device expects, stated
//! character by character in the contracts.

use vstd::prelude::*;

use crate::positions::StartupPosition;
use crate::positions::SwitchPosition;
use crate::positions::spec_startup_token;
use crate::positions::spec_switch_token;
use crate::text::dec_of_usize;
use crate::text::spec_dec;

verus! {

/// One outlet's desired switch position in a `switches` request.
#[derive(Debug, Clone, Copy, PartialEq, Eq, Structural)]
pub struct SwitchSetting {
    /// Position to set.
    pub switch: SwitchPosition,
    /// Outlet the setting addresses.
    pub outlet: u8,
}

/// One outlet's desired startup position in a `startups` request.
#[derive(Debug, Clone, Copy, PartialEq, Eq, Structural)]
pub struct StartupSetting {
    /// Position to set.
    pub startup: StartupPosition,
    /// Outlet the setting addresses.
    pub outlet: u8,
}

/// Payload of a `POST /zeroconf/switches` request.
#[derive(Debug, PartialEq)]
pub struct SwitchesRequest {
    /// Outlet entries the request carries.
    pub switches: Vec<SwitchSetting>,
}

/// Payload of a `POST /zeroconf/startups` request.
#[derive(Debug, PartialEq)]
pub struct StartupsRequest {
    /// Outlet entries the request carries.
    pub configure: Vec<StartupSetting>,
}

/// The body of an info request: the fixed literal `{"data":{}}`.
pub fn build_info_request() -> (r: String)
    ensures
        r@ == "{\"data\":{}}"@,
{
    "{\"data\":{}}".to_owned()
}

/// Builds the payload that sets the switch position of outlet 0: exactly
/// one entry, for outlet 0, carrying the requested position.  The device
/// allows this partial update, so the other outlets are not named and stay
/// untouched.
pub fn build_switch_request(position: SwitchPosition) -> (r: SwitchesRequest)
    ensures
        r.switches@.len() == 1,
        r.switches@[0] == (SwitchSetting { switch: position, outlet: 0 }),
{
    SwitchesRequest { switches: vec![SwitchSetting { switch: position, outlet: 0 }] }
}

/// Builds the payload that sets the startup position of outlet 0: exactly
/// four entries, for outlets 0 through 3, entry 0 carrying the requested
/// position and entries 1 through 3 always `Off`.
///
/// The device's API has no partial startup update, so every call resets
/// outlets 1 through 3 to `Off`: any startup state configured for them
/// independently is lost.
pub fn build_startup_request(position: StartupPosition) -> (r: StartupsRequest)
    ensures
        r.configure@.len() == 4,
        r.configure@[0] == (StartupSetting { startup: position, outlet: 0 }),
        forall|i: int|
            1 <= i < 4 ==> r.configure@[i] == (StartupSetting {
                startup: StartupPosition::Off,
                outlet: i as u8,
            }),
{
    let mut configure = vec![StartupSetting { startup: position, outlet: 0 }];
    let mut i: u8 = 1;
    while i <= 3
        invariant
            1 <= i <= 4,
            configure@.len() == i,
            configure@[0] == (StartupSetting { startup: position, outlet: 0 }),
            forall|j: int|
                1 <= j < i ==> configure@[j] == (StartupSetting {
                    startup: StartupPosition::Off,
                    outlet: j as u8,
                }),
        decreases 4 - i,
    {
        configure.push(StartupSetting { startup: StartupPosition::Off, outlet: i });
        i = i + 1;
    }
    StartupsRequest { configure }
}

/// The JSON text of one `switches` entry.
pub open spec fn spec_switch_setting_json(e: SwitchSetting) -> Seq<char> {
    "{\"switch\":\""@ + spec_switch_token(e.switch) + "\",\"outlet\":"@ + spec_dec(e.outlet as int)
        + "}"@
}

/// The JSON text of one `configure` entry.
pub open spec fn spec_startup_setting_json(e: StartupSetting) -> Seq<char> {
    "{\"startup\":\""@ + spec_startup_token(e.startup) + "\",\"outlet\":"@ + spec_dec(
        e.outlet as int,
    ) + "}"@
}

/// The comma-joined JSON text of the first `n` entries of `s`.
pub open spec fn spec_switch_settings_join(s: Seq<SwitchSetting>, n: int) -> Seq<char>
    recommends
        n <= s.len(),
    decreases n,
{
    if n <= 0 {
        Seq::empty()
    } else if n == 1 {
        spec_switch_setting_json(s[0])
    } else {
        spec_switch_settings_join(s, n - 1) + ","@ + spec_switch_setting_json(s[n - 1])
    }
}

/// The comma-joined JSON text of the first `n` entries of `s`.
pub open spec fn spec_startup_settings_join(s: Seq<StartupSetting>, n: int) -> Seq<char>
    recommends
        n <= s.len(),
    decreases n,
{
    if n <= 0 {
        Seq::empty()
    } else if n == 1 {
        spec_startup_setting_json(s[0])
    } else {
        spec_startup_settings_join(s, n - 1) + ","@ + spec_startup_setting_json(s[n - 1])
    }
}

/// The full JSON body of a `switches` request.
pub open spec fn spec_switches_request_json(r: SwitchesRequest) -> Seq<char> {
    "{\"data\":{\"switches\":["@ + spec_switch_settings_join(r.switches@, r.switches@.len() as int)
        + "]}}"@
}

/// The full JSON body of a `startups` request.
pub open spec fn spec_startups_request_json(r: StartupsRequest) -> Seq<char> {
    "{\"data\":{\"configure\":["@ + spec_startup_settings_join(
        r.configure@,
        r.configure@.len() as int,
    ) + "]}}"@
}

fn switch_setting_json(e: &SwitchSetting) -> (r: String)
    ensures
        r@ == spec_switch_setting_json(*e),
{
    let mut r = "{\"switch\":\"".to_owned();
    r.append(e.switch.token());
    r.append("\",\"outlet\":");
    let digits = dec_of_usize(e.outlet as usize);
    r.append(digits.as_str());
    r.append("}");
    proof {
        assert(r@ =~= spec_switch_setting_json(*e));
    }
    r
}

fn startup_setting_json(e: &StartupSetting) -> (r: String)
    ensures
        r@ == spec_startup_setting_json(*e),
{
    let mut r = "{\"startup\":\"".to_owned();
    r.append(e.startup.token());
    r.append("\",\"outlet\":");
    let digits = dec_of_usize(e.outlet as usize);
    r.append(digits.as_str());
    r.append("}");
    proof {
        assert(r@ =~= spec_startup_setting_json(*e));
    }
    r
}

impl SwitchesRequest {
    /// Renders the request as the exact JSON body the device expects.
    pub fn to_json(&self) -> (r: String)
        ensures
            r@ == spec_switches_request_json(*self),
    {
        let mut r = "{\"data\":{\"switches\":[".to_owned();
        proof {
            assert(r@ =~= "{\"data\":{\"switches\":["@ + spec_switch_settings_join(
                self.switches@,
                0,
            ));
        }
        let n = self.switches.len();
        let mut i: usize = 0;
        while i < n
            invariant
                i <= n,
                n == self.switches@.len(),
                r@ == "{\"data\":{\"switches\":["@ + spec_switch_settings_join(
                    self.switches@,
                    i as int,
                ),
            decreases n - i,
        {
            if i > 0 {
                r.append(",");
            }
            let entry = switch_setting_json(&self.switches[i]);
            r.append(entry.as_str());
            proof {
                assert(r@ =~= "{\"data\":{\"switches\":["@ + spec_switch_settings_join(
                    self.switches@,
                    i as int + 1,
                ));
            }
            i = i + 1;
        }
        r.append("]}}");
        proof {
            assert(r@ =~= spec_switches_request_json(*self));
        }
        r
    }
}

impl StartupsRequest {
    /// Renders the request as the exact JSON body the device expects.
    pub fn to_json(&self) -> (r: String)
        ensures
            r@ == spec_startups_request_json(*self),
    {
        let mut r = "{\"data\":{\"configure\":[".to_owned();
        proof {
            assert(r@ =~= "{\"data\":{\"configure\":["@ + spec_startup_settings_join(
                self.configure@,
                0,
            ));
        }
        let n = self.configure.len();
        let mut i: usize = 0;
        while i < n
            invariant
                i <= n,
                n == self.configure@.len(),
                r@ == "{\"data\":{\"configure\":["@ + spec_startup_settings_join(
                    self.configure@,
                    i as int,
                ),
            decreases n - i,
        {
            if i > 0 {
                r.append(",");
            }
            let entry = startup_setting_json(&self.configure[i]);
            r.append(entry.as_str());
            proof {
                assert(r@ =~= "{\"data\":{\"configure\":["@ + spec_startup_settings_join(
                    self.configure@,
                    i as int + 1,
                ));
            }
            i = i + 1;
        }
        r.append("]}}");
        proof {
            assert(r@ =~= spec_startups_request_json(*self));
        }
        r
    }
}

/// The URL of one device endpoint.
pub open spec fn spec_request_url(host: Seq<char>, port: u16, path: Seq<char>) -> Seq<char> {
    "http://"@ + host + ":"@ + spec_dec(port as int) + "/zeroconf/"@ + path
}

/// Builds `http://{host}:{port}/zeroconf/{path}`, the URL every request
/// goes to.
pub fn request_url(host: &str, port: u16, path: &str) -> (r: String)
    ensures
        r@ == spec_request_url(host@, port, path@),
{
    let mut r = "http://".to_owned();
    r.append(host);
    r.append(":");
    let digits = dec_of_usize(port as usize);
    r.append(digits.as_str());
    r.append("/zeroconf/");
    r.append(path);
    proof {
        assert(r@ =~= spec_request_url(host@, port, path@));
    }
    r
}

} // verus!
