//! Setting up a security key from the window.
use vstd::prelude::*;

use crate::fido::{
    compatible_enrollment, error_text, recoverable_enrollment, FidoEnrollment, FidoError,
    FidoKeyInfo, FLAG_RESIDENT, FLAG_USER_PRESENCE,
};
use crate::message::{Message, MessageModel};
use crate::secret::Secret;
use crate::text::{decimal, decimal_string};

verus! {

/// What the user asked for.
#[derive(Debug, Clone, Copy, PartialEq, Eq, Structural)]
pub enum FidoSetupAction {
    CreateRecommended,
    CreateCompatible,
    RecoverResident,
}

/// What a new credential is to be like; none where one is recovered.
pub fn enrollment_for(action: FidoSetupAction) -> (r: Option<FidoEnrollment>)
    ensures
        match action {
            FidoSetupAction::CreateRecommended => r is Some && r->0.flags == FLAG_USER_PRESENCE
                | FLAG_RESIDENT && r->0.application@ == "ssh:"@ && r->0.user_id@ == ""@,
            FidoSetupAction::CreateCompatible => r is Some && r->0.flags == FLAG_USER_PRESENCE
                && r->0.application@ == "ssh:"@ && r->0.user_id@ == ""@,
            FidoSetupAction::RecoverResident => r is None,
        },
{
    match action {
        FidoSetupAction::CreateRecommended => Some(recoverable_enrollment()),
        FidoSetupAction::CreateCompatible => Some(compatible_enrollment()),
        FidoSetupAction::RecoverResident => None,
    }
}

/// What the user is told of a failure. Some have a text of their own.
pub open spec fn setup_complaint(action: FidoSetupAction, error: FidoError) -> MessageModel {
    match (action, error) {
        (
            FidoSetupAction::CreateRecommended,
            FidoError::RecoverableCredentialExists,
        ) => MessageModel::text("fido_recover_existing"@),
        (
            FidoSetupAction::CreateRecommended,
            FidoError::WindowsEnrollmentCancelled,
        ) => MessageModel::text("fido_enrollment_cancelled"@),
        (
            FidoSetupAction::RecoverResident,
            FidoError::WindowsRecoveryCancelled { prompt },
        ) => MessageModel::about("fido_recovery_cancelled"@, "step"@, decimal(prompt as nat)),
        _ => MessageModel::Plain(error_text(error)),
    }
}

pub fn setup_failure(action: FidoSetupAction, error: &FidoError) -> (r: Message)
    ensures
        r@ == setup_complaint(action, *error),
{
    match (action, error) {
        (
            FidoSetupAction::CreateRecommended,
            FidoError::RecoverableCredentialExists,
        ) => Message::text("fido_recover_existing"),
        (
            FidoSetupAction::CreateRecommended,
            FidoError::WindowsEnrollmentCancelled,
        ) => Message::text("fido_enrollment_cancelled"),
        (
            FidoSetupAction::RecoverResident,
            FidoError::WindowsRecoveryCancelled { prompt },
        ) => Message::about("fido_recovery_cancelled", "step", decimal_string(*prompt as u64)),
        _ => Message::Plain(error.text()),
    }
}

/// What is said where the hardware holds no credential.
pub fn nothing_found() -> (r: Message)
    ensures
        r@ == MessageModel::Plain("No resident SSH credentials were found on the security key."@),
{
    Message::Plain("No resident SSH credentials were found on the security key.".to_owned())
}

/// The dialog: the PIN that was typed, whether something is under way, what is said, and the key
/// that was set up.
pub struct FidoSetup {
    pub pin: Secret,
    pub busy: bool,
    pub status: Option<Message>,
    pub identity: Option<FidoKeyInfo>,
}

pub struct InfoModel {
    pub path: Seq<char>,
    pub fingerprint: Seq<char>,
    pub algorithm: Seq<char>,
    pub public_key: Seq<char>,
}

pub open spec fn info_model(info: FidoKeyInfo) -> InfoModel {
    InfoModel {
        path: info.path@,
        fingerprint: info.fingerprint@,
        algorithm: info.algorithm@,
        public_key: info.public_key@,
    }
}

pub struct SetupModel {
    pub pin: Seq<char>,
    pub busy: bool,
    pub status: Option<MessageModel>,
    pub identity: Option<InfoModel>,
}

impl View for FidoSetup {
    type V = SetupModel;

    open spec fn view(&self) -> SetupModel {
        SetupModel {
            pin: self.pin@,
            busy: self.busy,
            status: match self.status {
                Some(message) => Some(message@),
                None => None,
            },
            identity: match self.identity {
                Some(info) => Some(info_model(info)),
                None => None,
            },
        }
    }
}

/// How an operation with the hardware ended.
#[derive(Debug)]
pub enum SetupEnd {
    /// The keys that were set up.
    Keys(Vec<FidoKeyInfo>),
    /// Why it failed, in the user's language.
    Failed(String),
    /// It will not be heard of again.
    Disconnected,
}

impl SetupModel {
    /// The dialog once an operation began: it holds the PIN no longer.
    pub open spec fn started(self) -> SetupModel {
        SetupModel {
            pin: Seq::empty(),
            busy: true,
            status: Some(MessageModel::text("fido_wait_touch"@)),
            identity: None,
        }
    }

    /// The dialog once an operation ended.
    pub open spec fn ended(self, end: SetupEnd) -> SetupModel {
        match end {
            SetupEnd::Keys(keys) => if keys@.len() == 0 {
                SetupModel { busy: false, ..self }
            } else {
                SetupModel {
                    busy: false,
                    status: Some(
                        MessageModel::about(
                            "fido_setup_succeeded"@,
                            "fingerprint"@,
                            keys@[0].fingerprint@,
                        ),
                    ),
                    identity: Some(info_model(keys@[0])),
                    ..self
                }
            },
            SetupEnd::Failed(error) => SetupModel {
                busy: false,
                status: Some(MessageModel::about("fido_setup_failed"@, "error"@, error@)),
                ..self
            },
            SetupEnd::Disconnected => SetupModel {
                busy: false,
                status: Some(MessageModel::text("fido_setup_disconnected"@)),
                ..self
            },
        }
    }
}

impl FidoSetup {
    pub fn open_dialog() -> (r: Self)
        ensures
            r@ == (SetupModel { pin: Seq::empty(), busy: false, status: None, identity: None }),
    {
        FidoSetup { pin: Secret::default(), busy: false, status: None, identity: None }
    }

    /// Begins an operation, unless one is under way. The PIN that it is given is returned.
    pub fn start(&mut self) -> (r: Option<Secret>)
        ensures
            if old(self)@.busy {
                r is None && final(self)@ == old(self)@
            } else {
                r is Some && r->0@ == old(self)@.pin && final(self)@ == old(self)@.started()
            },
    {
        if self.busy {
            return None;
        }
        let pin = self.pin.take();
        self.identity = None;
        self.status = Some(Message::text("fido_wait_touch"));
        self.busy = true;
        Some(pin)
    }

    /// Takes in how an operation ended. The file of the key that was set up is returned, to be put
    /// into the form.
    pub fn finish(&mut self, end: SetupEnd) -> (r: Option<String>)
        ensures
            final(self)@ == old(self)@.ended(end),
            match end {
                SetupEnd::Keys(keys) => if keys@.len() == 0 {
                    r is None
                } else {
                    r is Some && r->0@ == keys@[0].path@
                },
                _ => r is None,
            },
    {
        self.busy = false;
        match end {
            SetupEnd::Keys(keys) => {
                let mut keys = keys;
                if keys.len() == 0 {
                    return None;
                }
                let first = keys.remove(0);
                let path = first.path.clone();
                self.status = Some(
                    Message::about(
                        "fido_setup_succeeded",
                        "fingerprint",
                        first.fingerprint.clone(),
                    ),
                );
                self.identity = Some(first);
                Some(path)
            },
            SetupEnd::Failed(error) => {
                self.status = Some(Message::about("fido_setup_failed", "error", error));
                None
            },
            SetupEnd::Disconnected => {
                self.status = Some(Message::text("fido_setup_disconnected"));
                None
            },
        }
    }
}

/// While an operation is under way the dialog holds no PIN.
pub proof fn the_pin_is_given_away(setup: SetupModel)
    ensures
        setup.started().pin.len() == 0,
        setup.started().busy,
{
}

/// The dialog shows the key that was set up, or why there is none, and is ready again.
pub proof fn setups_end_with_their_result(setup: SetupModel, end: SetupEnd)
    ensures
        !setup.ended(end).busy,
        setup.ended(end).pin == setup.pin,
        end matches SetupEnd::Keys(keys) ==> keys@.len() > 0 ==> setup.ended(end).identity is Some
            && setup.ended(end).identity->0.path == keys@[0].path@
            && setup.ended(end).identity->0.fingerprint == keys@[0].fingerprint@,
        end matches SetupEnd::Failed(error) ==> setup.ended(end).status == Some(
            MessageModel::about("fido_setup_failed"@, "error"@, error@),
        ) && setup.ended(end).identity == setup.identity,
        end is Disconnected ==> setup.ended(end).status == Some(
            MessageModel::text("fido_setup_disconnected"@),
        ),
        setup.started().identity is None,
{
}

/// A credential that is on the key already, and a prompt that was cancelled, are told in words of
/// their own where they were to be expected, and other failures as they are.
pub proof fn failures_are_told_as_they_are(action: FidoSetupAction, error: FidoError)
    ensures
        action == FidoSetupAction::CreateRecommended && error is RecoverableCredentialExists
            ==> setup_complaint(action, error) == MessageModel::text("fido_recover_existing"@),
        action == FidoSetupAction::CreateRecommended && error is WindowsEnrollmentCancelled
            ==> setup_complaint(action, error) == MessageModel::text("fido_enrollment_cancelled"@),
        action == FidoSetupAction::RecoverResident && (error matches
            FidoError::WindowsRecoveryCancelled { prompt }) ==> setup_complaint(action, error)
            == MessageModel::about(
            "fido_recovery_cancelled"@,
            "step"@,
            decimal(error->prompt as nat),
        ),
        action == FidoSetupAction::CreateCompatible ==> setup_complaint(action, error)
            == MessageModel::Plain(error_text(error)),
        error is NotSecurityKey || error is SessionClosed ==> setup_complaint(action, error)
            == MessageModel::Plain(error_text(error)),
{
}

} // verus!
