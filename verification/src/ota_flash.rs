//! Taking new firmware over the network.
//!
//! The image goes piece by piece into the slot that is not running, and the bootloader is switched
//! over only after the image was validated. The flash itself is driven from outside.
use crate::text;
use crate::util;
use crate::wifi_provision::http;
use crate::wifi_provision::http::{Reply, ReplyView};
use vstd::prelude::*;
use vstd::string::*;

verus! {

/// The largest image: the size of one slot.
pub const FIRMWARE_MAX: usize = 0x1D_0000;

/// Why a piece of the image was not written.
#[derive(Debug)]
pub enum WriteError {
    /// The image is larger than the slot. The update was broken off.
    TooLarge,
    /// The flash failed. The update was broken off.
    Flash(String),
}

/// How an update ended.
#[derive(Debug)]
pub enum FinishOutcome {
    /// The image was validated, and its slot was selected.
    Selected,
    /// The image was not validated.
    Invalid(String),
    /// The image was validated, but its slot could not be selected.
    NotSelected(String),
}

/// An update: how much was written, and whether the flash still has to be told that it is
/// broken off.
#[derive(Debug)]
pub struct OtaWriter {
    written: usize,
    open: bool,
}

/// The refusal of an image by its size.
pub open spec fn too_large_text(expected_size: usize) -> Seq<char> {
    "Firmware ("@ + text::decimal(expected_size as nat) + " bytes) exceeds OTA slot size ("@
        + text::decimal(FIRMWARE_MAX as nat) + " bytes)"@
}

impl OtaWriter {
    /// How many bytes were written.
    pub closed spec fn count(self) -> nat {
        self.written as nat
    }

    /// Whether the update can still go on.
    pub closed spec fn is_open(self) -> bool {
        self.open
    }

    /// What was written fits in the slot.
    #[verifier::type_invariant]
    closed spec fn fits(self) -> bool {
        self.written <= FIRMWARE_MAX
    }

    /// Begins an update.
    pub fn begin(expected_size: usize) -> (r: Result<Self, String>)
        ensures
            r is Ok <==> expected_size <= FIRMWARE_MAX,
            r matches Ok(w) ==> w.count() == 0 && w.is_open(),
            r matches Err(e) ==> e@ == too_large_text(expected_size),
    {
        if expected_size > FIRMWARE_MAX {
            let mut e = "Firmware (".to_owned();
            text::push_decimal(&mut e, expected_size as u128);
            e.append(" bytes) exceeds OTA slot size (");
            text::push_decimal(&mut e, FIRMWARE_MAX as u128);
            e.append(" bytes)");
            return Err(e);
        }
        Ok(OtaWriter { written: 0, open: true })
    }

    /// Whether the next piece still fits. The update is broken off where it does not.
    pub fn check(&mut self, chunk: &[u8]) -> (r: Result<(), WriteError>)
        ensures
            final(self).count() == old(self).count(),
            r is Ok <==> old(self).count() + chunk@.len() <= FIRMWARE_MAX,
            r is Ok ==> final(self).is_open() == old(self).is_open(),
            r matches Err(e) ==> e == WriteError::TooLarge && !final(self).is_open(),
    {
        proof {
            use_type_invariant(&*self);
        }
        if chunk.len() > FIRMWARE_MAX - self.written {
            self.open = false;
            return Err(WriteError::TooLarge);
        }
        Ok(())
    }

    /// Takes what came of writing a piece that fits.
    pub fn note_write(&mut self, chunk: &[u8], outcome: Result<(), String>) -> (r: Result<
        (),
        WriteError,
    >)
        requires
            old(self).count() + chunk@.len() <= FIRMWARE_MAX,
        ensures
            r is Ok <==> outcome is Ok,
            r is Ok ==> final(self).count() == old(self).count() + chunk@.len()
                && final(self).is_open() == old(self).is_open(),
            r matches Err(e) ==> {
                &&& e matches WriteError::Flash(m)
                &&& m@ == "esp_ota_write failed: "@ + outcome->Err_0@
                &&& final(self).count() == old(self).count()
                &&& !final(self).is_open()
            },
    {
        match outcome {
            Ok(()) => {
                self.written = self.written + chunk.len();
                Ok(())
            },
            Err(cause) => {
                self.open = false;
                let mut m = "esp_ota_write failed: ".to_owned();
                m.append(cause.as_str());
                Err(WriteError::Flash(m))
            },
        }
    }

    /// Takes the next piece where the flash does not fail.
    pub fn write(&mut self, chunk: &[u8]) -> (r: Result<(), WriteError>)
        ensures
            r is Ok <==> old(self).count() + chunk@.len() <= FIRMWARE_MAX,
            r is Ok ==> final(self).count() == old(self).count() + chunk@.len()
                && final(self).is_open() == old(self).is_open(),
            r matches Err(e) ==> e == WriteError::TooLarge && final(self).count() == old(
                self,
            ).count() && !final(self).is_open(),
    {
        match self.check(chunk) {
            Ok(()) => self.note_write(chunk, Ok(())),
            Err(e) => Err(e),
        }
    }

    /// Ends the update: how many bytes were written, or why the running firmware stays.
    pub fn finish(self, outcome: FinishOutcome) -> (r: Result<usize, String>)
        ensures
            match outcome {
                FinishOutcome::Selected => r matches Ok(n) && n == self.count() && n
                    <= FIRMWARE_MAX,
                FinishOutcome::Invalid(e) => r matches Err(m) && m@
                    == "Firmware image validation failed: "@ + e@,
                FinishOutcome::NotSelected(e) => r matches Err(m) && m@
                    == "Failed to select new slot for boot: "@ + e@,
            },
    {
        proof {
            use_type_invariant(&self);
        }
        match outcome {
            FinishOutcome::Selected => Ok(self.written),
            FinishOutcome::Invalid(e) => {
                let mut m = "Firmware image validation failed: ".to_owned();
                m.append(e.as_str());
                Err(m)
            },
            FinishOutcome::NotSelected(e) => {
                let mut m = "Failed to select new slot for boot: ".to_owned();
                m.append(e.as_str());
                Err(m)
            },
        }
    }

    /// Breaks the update off. Returns whether the flash has to be told.
    pub fn abort(&mut self) -> (r: bool)
        ensures
            r == old(self).is_open(),
            !final(self).is_open(),
            final(self).count() == old(self).count(),
    {
        proof {
            use_type_invariant(&*self);
        }
        let was_open = self.open;
        self.open = false;
        was_open
    }
}

/// How much of the slot is erased for an upload: what it says it has, and no more than there is.
pub fn expected_size(content_len: Option<u64>) -> (r: usize)
    ensures
        r as int == match content_len {
            Some(n) => if n < FIRMWARE_MAX {
                n as int
            } else {
                FIRMWARE_MAX as int
            },
            None => 0,
        },
{
    match content_len {
        Some(n) => if n < FIRMWARE_MAX as u64 {
            n as usize
        } else {
            FIRMWARE_MAX
        },
        None => 0,
    }
}

/// What became of an upload.
#[derive(Debug)]
pub enum UploadOutcome {
    /// The update could not begin.
    BeginFailed(String),
    /// The request's body could not be read.
    ReadFailed(String),
    /// The image is too large.
    TooLarge,
    /// The flash failed.
    FlashFailed(String),
    /// So many bytes were written, validated and selected.
    Flashed(usize),
    /// The image was not validated or not selected.
    Rejected(String),
}

/// What an upload leads to.
#[derive(Debug)]
pub struct UploadReport {
    /// What is recorded.
    pub line: String,
    /// The reply. There is none where the request could not be read.
    pub reply: Option<Reply>,
    /// Whether the rest of the request has to be read before the reply.
    pub drain: bool,
    /// Whether the device goes on with the firmware that runs, and hangs are watched for again.
    pub resume_monitor: bool,
    /// Whether the device reboots into the new firmware.
    pub reboot: bool,
}

/// The line that is recorded.
pub open spec fn upload_line(outcome: UploadOutcome) -> Seq<char> {
    match outcome {
        UploadOutcome::BeginFailed(e) => "ota: begin failed: "@ + e@,
        UploadOutcome::ReadFailed(e) => "ota: body read failed: "@ + e@,
        UploadOutcome::TooLarge => "ota: rejected, firmware too large"@,
        UploadOutcome::FlashFailed(e) => "ota: flash write failed: "@ + e@,
        UploadOutcome::Flashed(n) => "ota: flashed "@ + text::decimal(n as nat)
            + " bytes, rebooting into new slot"@,
        UploadOutcome::Rejected(e) => "ota: validation failed: "@ + e@,
    }
}

/// A reply that something went wrong.
pub open spec fn failure_body(error: Seq<char>) -> Seq<char> {
    "{\"ok\":false,\"error\":\""@ + util::json_escaped(error) + "\"}"@
}

/// The reply.
pub open spec fn upload_reply(outcome: UploadOutcome) -> Option<ReplyView> {
    match outcome {
        UploadOutcome::BeginFailed(e) => Some(
            http::json_reply_of(400, Some("Bad Request"@), failure_body(e@)),
        ),
        UploadOutcome::ReadFailed(_) => None,
        UploadOutcome::TooLarge => Some(
            http::json_reply_of(
                413,
                Some("Payload Too Large"@),
                "{\"ok\":false,\"error\":\"Firmware too large\"}"@,
            ),
        ),
        UploadOutcome::FlashFailed(e) => Some(
            http::json_reply_of(500, Some("Internal Server Error"@), failure_body(e@)),
        ),
        UploadOutcome::Flashed(_) => Some(
            http::json_reply_of(
                200,
                Some("OK"@),
                "{\"ok\":true,\"message\":\"Firmware flashed. Rebooting...\"}"@,
            ),
        ),
        UploadOutcome::Rejected(e) => Some(
            http::json_reply_of(400, Some("Bad Request"@), failure_body(e@)),
        ),
    }
}

fn failure_json(error: &str) -> (r: String)
    ensures
        r@ == failure_body(error@),
{
    let mut out = "{\"ok\":false,\"error\":\"".to_owned();
    util::push_json_escaped(&mut out, error);
    out.append("\"}");
    out
}

fn line_with(front: &str, error: &str) -> (r: String)
    ensures
        r@ == front@ + error@,
{
    let mut out = front.to_owned();
    out.append(error);
    out
}

/// What an upload leads to. The device reboots where new firmware was taken, and only there;
/// otherwise it goes on as before.
pub fn upload_report(outcome: UploadOutcome) -> (r: UploadReport)
    ensures
        r.line@ == upload_line(outcome),
        match upload_reply(outcome) {
            Some(view) => r.reply matches Some(reply) && reply@ == view,
            None => r.reply is None,
        },
        r.drain == (outcome is TooLarge || outcome is FlashFailed),
        r.reboot == (outcome is Flashed),
        r.resume_monitor == !r.reboot,
{
    match outcome {
        UploadOutcome::BeginFailed(e) => UploadReport {
            line: line_with("ota: begin failed: ", e.as_str()),
            reply: Some(http::json_reply(400, "Bad Request", failure_json(e.as_str()))),
            drain: false,
            resume_monitor: true,
            reboot: false,
        },
        UploadOutcome::ReadFailed(e) => UploadReport {
            line: line_with("ota: body read failed: ", e.as_str()),
            reply: None,
            drain: false,
            resume_monitor: true,
            reboot: false,
        },
        UploadOutcome::TooLarge => UploadReport {
            line: "ota: rejected, firmware too large".to_owned(),
            reply: Some(
                http::json_reply(
                    413,
                    "Payload Too Large",
                    "{\"ok\":false,\"error\":\"Firmware too large\"}".to_owned(),
                ),
            ),
            drain: true,
            resume_monitor: true,
            reboot: false,
        },
        UploadOutcome::FlashFailed(e) => UploadReport {
            line: line_with("ota: flash write failed: ", e.as_str()),
            reply: Some(http::json_reply(500, "Internal Server Error", failure_json(e.as_str()))),
            drain: true,
            resume_monitor: true,
            reboot: false,
        },
        UploadOutcome::Flashed(n) => {
            let mut line = "ota: flashed ".to_owned();
            text::push_decimal(&mut line, n as u128);
            line.append(" bytes, rebooting into new slot");
            UploadReport {
                line,
                reply: Some(
                    http::json_reply(
                        200,
                        "OK",
                        "{\"ok\":true,\"message\":\"Firmware flashed. Rebooting...\"}".to_owned(),
                    ),
                ),
                drain: false,
                resume_monitor: false,
                reboot: true,
            }
        },
        UploadOutcome::Rejected(e) => UploadReport {
            line: line_with("ota: validation failed: ", e.as_str()),
            reply: Some(http::json_reply(400, "Bad Request", failure_json(e.as_str()))),
            drain: false,
            resume_monitor: true,
            reboot: false,
        },
    }
}

} // verus!
