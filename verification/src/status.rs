//! What the status line and its short notices say.
use vstd::prelude::*;

use crate::text::{ends_with, same_text, starts_with};

verus! {

/// How long a notice stays, in milliseconds.
pub const TOAST_DURATION: u64 = 5000;

#[derive(Debug, Clone, Copy, PartialEq, Eq, Structural)]
pub enum StatusKind {
    Info,
    Success,
    Warning,
    Error,
}

/// A message, how serious it is, and when its notice appeared.
#[derive(Debug)]
pub struct StatusMessage {
    pub kind: StatusKind,
    pub text: String,
    pub shown_at: Option<u64>,
}

impl StatusMessage {
    /// A message that is shown at a moment. Plain information has no notice.
    pub fn new(kind: StatusKind, text: String, now: u64) -> (r: Self)
        ensures
            r.kind == kind,
            r.text@ == text@,
            r.shown_at == if kind == StatusKind::Info {
                None
            } else {
                Some(now)
            },
    {
        let shown_at: Option<u64> = if matches!(kind, StatusKind::Info) {
            None
        } else {
            Some(now)
        };
        StatusMessage { kind, text, shown_at }
    }

    pub fn info(text: String) -> (r: Self)
        ensures
            r.kind == StatusKind::Info,
            r.text@ == text@,
            r.shown_at is None,
    {
        StatusMessage::new(StatusKind::Info, text, 0)
    }

    /// The notice is on screen at a moment.
    pub open spec fn visible(self, now: u64) -> bool {
        self.shown_at is Some && now - self.shown_at->0 < TOAST_DURATION
    }

    pub fn toast_visible(&self, now: u64) -> (r: bool)
        ensures
            r == self.visible(now),
    {
        match self.shown_at {
            Some(shown_at) => now < shown_at || now - shown_at < TOAST_DURATION,
            None => false,
        }
    }

    /// Takes the notice away and leaves the message.
    pub fn dismiss(&mut self)
        ensures
            final(self).kind == old(self).kind,
            final(self).text == old(self).text,
            final(self).shown_at is None,
    {
        self.shown_at = None;
    }
}

pub open spec fn is_caution(key: Seq<char>) -> bool {
    key == "import_file_kept_warning"@ || key == "batch_nothing_selected"@ || key
        == "test_all_empty"@ || key == "tray_unavailable"@ || key == "host_changed"@ || key
        == "chain_in_use"@
}

pub open spec fn is_achievement(key: Seq<char>) -> bool {
    key == "status_saved"@ || key == "status_test_ok"@ || key == "batch_deleted"@ || key
        == "batch_export_succeeded"@ || key == "import_succeeded"@ || key
        == "import_succeeded_with_credentials"@ || key == "template_saved"@ || key
        == "import_file_deleted"@ || key == "fido_found"@ || key == "hosts_refreshed"@
}

pub open spec fn is_trouble(key: Seq<char>) -> bool {
    "_error"@.is_suffix_of(key) || "_failed"@.is_suffix_of(key) || "_timeout"@.is_suffix_of(key)
        || "validation_"@.is_prefix_of(key) || key == "fido_not_found"@
}

/// How serious the message with a key is.
pub open spec fn kind_of_key(key: Seq<char>) -> StatusKind {
    if key == "status_test_all_done"@ {
        StatusKind::Info
    } else if is_caution(key) {
        StatusKind::Warning
    } else if is_achievement(key) {
        StatusKind::Success
    } else if is_trouble(key) {
        StatusKind::Error
    } else {
        StatusKind::Info
    }
}

pub fn status_kind_for_key(key: &str) -> (r: StatusKind)
    ensures
        r == kind_of_key(key@),
{
    if same_text(key, "status_test_all_done") {
        StatusKind::Info
    } else if same_text(key, "import_file_kept_warning") || same_text(key, "batch_nothing_selected")
        || same_text(key, "test_all_empty") || same_text(key, "tray_unavailable") || same_text(
        key,
        "host_changed",
    ) || same_text(key, "chain_in_use") {
        StatusKind::Warning
    } else if same_text(key, "status_saved") || same_text(key, "status_test_ok") || same_text(
        key,
        "batch_deleted",
    ) || same_text(key, "batch_export_succeeded") || same_text(key, "import_succeeded")
        || same_text(key, "import_succeeded_with_credentials") || same_text(key, "template_saved")
        || same_text(key, "import_file_deleted") || same_text(key, "fido_found") || same_text(
        key,
        "hosts_refreshed",
    ) {
        StatusKind::Success
    } else if ends_with(key, "_error") || ends_with(key, "_failed") || ends_with(key, "_timeout")
        || starts_with(key, "validation_") || same_text(key, "fido_not_found") {
        StatusKind::Error
    } else {
        StatusKind::Info
    }
}

/// Messages whose keys end like failures are errors, unless they are among those that are named
/// otherwise; and a notice stays for five seconds.
pub proof fn failures_are_errors(key: Seq<char>)
    ensures
        is_trouble(key) && !is_caution(key) && !is_achievement(key) && key
            != "status_test_all_done"@ ==> kind_of_key(key) == StatusKind::Error,
        "_error"@.is_suffix_of(key) || "_failed"@.is_suffix_of(key) || "_timeout"@.is_suffix_of(key)
            || "validation_"@.is_prefix_of(key) ==> is_trouble(key),
        is_caution(key) ==> kind_of_key(key) == StatusKind::Warning || kind_of_key(key)
            == StatusKind::Info,
        !is_trouble(key) && !is_caution(key) && !is_achievement(key) ==> kind_of_key(key)
            == StatusKind::Info,
        kind_of_key(key) == StatusKind::Success ==> is_achievement(key),
        kind_of_key(key) == StatusKind::Error ==> is_trouble(key),
{
}

/// A notice is seen for five seconds from when it appeared, and not without having appeared.
pub proof fn notices_stay_for_five_seconds(message: StatusMessage, now: u64)
    ensures
        message.shown_at is None ==> !message.visible(now),
        message.shown_at matches Some(shown) ==> (message.visible(now) <==> now < shown + 5000),
{
}

} // verus!
