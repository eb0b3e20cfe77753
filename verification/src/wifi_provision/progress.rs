//! How far joining the network has got.
use crate::text;
use vstd::prelude::*;
use vstd::string::*;

verus! {

/// How often joining the network is tried.
pub const MAX_CONNECT_ATTEMPTS: u8 = 5;

/// What the portal shows while the device joins the network.
#[derive(Debug)]
pub struct ConnectProgress {
    pub stage: String,
    pub ssid: String,
    pub attempt: u8,
    pub total: u8,
    pub message: String,
}

/// What the progress holds.
pub struct ProgressView {
    pub stage: Seq<char>,
    pub ssid: Seq<char>,
    pub attempt: u8,
    pub total: u8,
    pub message: Seq<char>,
}

impl View for ConnectProgress {
    type V = ProgressView;

    open spec fn view(&self) -> ProgressView {
        ProgressView {
            stage: self.stage@,
            ssid: self.ssid@,
            attempt: self.attempt,
            total: self.total,
            message: self.message@,
        }
    }
}

fn around(front: &str, ssid: &str, back: &str) -> (r: String)
    ensures
        r@ == front@ + ssid@ + back@,
{
    let mut out = front.to_owned();
    out.append(ssid);
    out.append(back);
    out
}

/// What is shown during an attempt.
pub open spec fn attempt_message(ssid: Seq<char>, attempt: u8) -> Seq<char> {
    "Connecting to '"@ + ssid + "' (attempt "@ + text::decimal(attempt as nat) + "/5)..."@
}

impl ConnectProgress {
    /// Progress before anything was tried.
    pub fn new(ssid: String, total: u8) -> (r: Self)
        ensures
            r@ == (ProgressView {
                stage: "booting"@,
                ssid: ssid@,
                attempt: 0,
                total,
                message: "Starting Wi-Fi services..."@,
            }),
    {
        ConnectProgress {
            stage: "booting".to_owned(),
            ssid,
            attempt: 0,
            total,
            message: "Starting Wi-Fi services...".to_owned(),
        }
    }

    /// The network is about to be tried.
    pub fn trying(&mut self, ssid: &str)
        ensures
            final(self)@ == (ProgressView {
                stage: "connecting"@,
                message: "Trying '"@ + ssid@ + "'..."@,
                ..old(self)@
            }),
    {
        self.stage = "connecting".to_owned();
        self.message = around("Trying '", ssid, "'...");
    }

    /// An attempt starts.
    pub fn attempting(&mut self, ssid: &str, attempt: u8)
        ensures
            final(self)@ == (ProgressView {
                stage: "connecting"@,
                attempt,
                message: attempt_message(ssid@, attempt),
                ..old(self)@
            }),
    {
        self.stage = "connecting".to_owned();
        self.attempt = attempt;
        let mut message = around("Connecting to '", ssid, "' (attempt ");
        text::push_decimal(&mut message, attempt as u128);
        message.append("/5)...");
        self.message = message;
    }

    /// The network was joined.
    pub fn connected(&mut self, ssid: &str)
        ensures
            final(self)@ == (ProgressView {
                stage: "connected"@,
                message: "Connected to '"@ + ssid@ + "'. Bringing dashboard online..."@,
                ..old(self)@
            }),
    {
        self.stage = "connected".to_owned();
        self.message = around("Connected to '", ssid, "'. Bringing dashboard online...");
    }

    /// The network could not be joined.
    pub fn failed(&mut self)
        ensures
            final(self)@ == (ProgressView {
                stage: "failed"@,
                message: "Could not connect after retries. Staying in setup mode."@,
                ..old(self)@
            }),
    {
        self.stage = "failed".to_owned();
        self.message = "Could not connect after retries. Staying in setup mode.".to_owned();
    }

    /// Other credentials were saved, and the device reboots.
    pub fn rebooting(&mut self, ssid: &str)
        ensures
            final(self)@ == (ProgressView {
                stage: "rebooting"@,
                ssid: ssid@,
                message: "Saved credentials for '"@ + ssid@ + "'. Rebooting..."@,
                ..old(self)@
            }),
    {
        self.stage = "rebooting".to_owned();
        self.ssid = ssid.to_owned();
        self.message = around("Saved credentials for '", ssid, "'. Rebooting...");
    }
}

/// What follows an attempt to join the network.
#[derive(Debug, Clone, Copy, PartialEq, Eq, Structural)]
pub enum AfterAttempt {
    /// The network was joined.
    Online,
    /// The next attempt, after a pause.
    Retry(u8),
    /// There are no attempts left.
    GiveUp,
}

/// What follows an attempt to join the network.
pub fn after_attempt(attempt: u8, joined: bool) -> (r: AfterAttempt)
    ensures
        r == if joined {
            AfterAttempt::Online
        } else if attempt < MAX_CONNECT_ATTEMPTS {
            AfterAttempt::Retry((attempt + 1) as u8)
        } else {
            AfterAttempt::GiveUp
        },
{
    if joined {
        AfterAttempt::Online
    } else if attempt < MAX_CONNECT_ATTEMPTS {
        AfterAttempt::Retry(attempt + 1)
    } else {
        AfterAttempt::GiveUp
    }
}

/// How a network is secured.
#[derive(Debug, Clone, Copy, PartialEq, Eq, Structural)]
pub enum NetworkAuth {
    Open,
    WEP,
    WPA,
    WPA2Personal,
    WPAWPA2Personal,
    WPA2Enterprise,
    WPA3Personal,
    WPA2WPA3Personal,
    WAPIPersonal,
}

/// A network that a scan found.
#[derive(Debug)]
pub struct ScannedNetwork {
    pub ssid: String,
    pub auth: Option<NetworkAuth>,
}

/// How the network with a name is secured: as the first that was found with it says.
pub open spec fn auth_of(found: Seq<ScannedNetwork>, target: Seq<char>) -> NetworkAuth
    decreases found.len(),
{
    if found.len() == 0 {
        NetworkAuth::WPA2WPA3Personal
    } else if text::same_ignoring_case(found[0].ssid@, target) {
        match found[0].auth {
            Some(auth) => auth,
            None => NetworkAuth::WPA2WPA3Personal,
        }
    } else {
        auth_of(found.skip(1), target)
    }
}

/// How the network is secured. A scan that failed found nothing.
pub fn scan_for_auth(found: &Vec<ScannedNetwork>, target_ssid: &str) -> (r: NetworkAuth)
    ensures
        r == auth_of(found@, target_ssid@),
{
    let mut i: usize = 0;
    assert(found@.skip(0) =~= found@);
    while i < found.len()
        invariant
            i <= found.len(),
            auth_of(found@, target_ssid@) == auth_of(found@.skip(i as int), target_ssid@),
        decreases found.len() - i,
    {
        if text::eq_ignore_case(found[i].ssid.as_str(), target_ssid) {
            return match found[i].auth {
                Some(auth) => auth,
                None => NetworkAuth::WPA2WPA3Personal,
            };
        }
        assert(found@.skip(i as int).skip(1) =~= found@.skip(i + 1));
        i = i + 1;
    }
    NetworkAuth::WPA2WPA3Personal
}

} // verus!
