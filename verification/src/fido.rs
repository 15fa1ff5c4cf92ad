//! Hardware-key handles: the protocol of the signing helper, the names of handle files, and the
//! enrollments that are asked for.
use vstd::prelude::*;
use vstd::slice::slice_subrange;

use crate::paths::{file_name, file_name_of};
use crate::text::{
    chars_of, contains_text, decimal, decimal_string, ends_with, occurs_at, string_of,
};

verus! {

pub const HELPER_VERSION: u8 = 5;

pub const HELPER_ERROR: u32 = 0;

pub const HELPER_SIGN: u32 = 1;

pub const HELPER_ENROLL: u32 = 2;

pub const HELPER_LOAD_RESIDENT: u32 = 3;

pub const KEY_ECDSA_SK: u32 = 10;

pub const FLAG_USER_PRESENCE: u8 = 0x01;

pub const FLAG_RESIDENT: u8 = 0x20;

pub const MAX_HELPER_RESPONSE_BYTES: usize = 4 * 1024 * 1024;

/// The helper's code for a credential that is there already.
pub const HELPER_CREDENTIAL_EXISTS: u32 = 44;

/// Why an operation on a hardware key failed. Failures that come from outside carry their text.
#[derive(Debug, PartialEq, Eq)]
pub enum FidoError {
    HelperUnavailable(String),
    Launch(String),
    Io(String),
    Helper { code: u32, meaning: &'static str },
    RecoverableCredentialExists,
    WindowsRecovery(String),
    WindowsRecoveryCancelled { prompt: u8 },
    WindowsEnrollmentCancelled,
    Permissions(String),
    ExistingHandleMismatch(String),
    Protocol(&'static str),
    Key(String),
    Encoding(String),
    NotSecurityKey,
    Join(String),
    SessionClosed,
}

/// The sentence that describes a failure.
pub open spec fn error_text(error: FidoError) -> Seq<char> {
    match error {
        FidoError::HelperUnavailable(path) => {
            "the Windows OpenSSH FIDO system component is unavailable at "@ + path@
                + "; this is a Windows optional component, not YubiKey/Pageant software"@
        },
        FidoError::Launch(text) => "failed to launch the Windows OpenSSH FIDO helper: "@ + text@,
        FidoError::Io(text) => "FIDO helper I/O failed: "@ + text@,
        FidoError::Helper { code, meaning } => {
            "the Windows FIDO operation failed with OpenSSH error "@ + decimal(code as nat) + ": "@
                + meaning@
        },
        FidoError::RecoverableCredentialExists => {
            "a recoverable SSH credential already exists on the hardware key"@
        },
        FidoError::WindowsRecovery(text) => "Windows hardware-key recovery failed: "@ + text@,
        FidoError::WindowsRecoveryCancelled { prompt } => {
            "Windows Security prompt "@ + decimal(prompt as nat)
                + " of 2 was cancelled or timed out"@
        },
        FidoError::WindowsEnrollmentCancelled => {
            "Windows Security credential creation was cancelled or timed out"@
        },
        FidoError::Permissions(text) => "failed to secure the recovered SSH file: "@ + text@,
        FidoError::ExistingHandleMismatch(path) => {
            "the existing SSH handle file does not match the recovered hardware credential: "@
                + path@
        },
        FidoError::Protocol(text) => "FIDO helper protocol error: "@ + text@,
        FidoError::Key(text) => "FIDO key data is invalid: "@ + text@,
        FidoError::Encoding(text) => "FIDO key encoding failed: "@ + text@,
        FidoError::NotSecurityKey => {
            "the selected file is not an OpenSSH ecdsa-sk or ed25519-sk FIDO handle"@
        },
        FidoError::Join(text) => "the FIDO signing task could not be completed: "@ + text@,
        FidoError::SessionClosed => "the SSH session closed before FIDO signing completed"@,
    }
}

fn joined_pair(head: &str, tail: &str) -> (r: String)
    ensures
        r@ == head@ + tail@,
{
    let mut text = head.to_owned();
    text.append(tail);
    text
}

impl FidoError {
    pub fn text(&self) -> (r: String)
        ensures
            r@ == error_text(*self),
    {
        match self {
            FidoError::HelperUnavailable(path) => {
                let mut text = joined_pair(
                    "the Windows OpenSSH FIDO system component is unavailable at ",
                    path.as_str(),
                );
                text.append(
                    "; this is a Windows optional component, not YubiKey/Pageant software",
                );
                text
            },
            FidoError::Launch(text) => joined_pair(
                "failed to launch the Windows OpenSSH FIDO helper: ",
                text.as_str(),
            ),
            FidoError::Io(text) => joined_pair("FIDO helper I/O failed: ", text.as_str()),
            FidoError::Helper { code, meaning } => {
                let number = decimal_string(*code as u64);
                let mut text = joined_pair(
                    "the Windows FIDO operation failed with OpenSSH error ",
                    number.as_str(),
                );
                text.append(": ");
                text.append(meaning);
                text
            },
            FidoError::RecoverableCredentialExists => {
                "a recoverable SSH credential already exists on the hardware key".to_owned()
            },
            FidoError::WindowsRecovery(text) => joined_pair(
                "Windows hardware-key recovery failed: ",
                text.as_str(),
            ),
            FidoError::WindowsRecoveryCancelled { prompt } => {
                let number = decimal_string(*prompt as u64);
                let mut text = joined_pair("Windows Security prompt ", number.as_str());
                text.append(" of 2 was cancelled or timed out");
                text
            },
            FidoError::WindowsEnrollmentCancelled => {
                "Windows Security credential creation was cancelled or timed out".to_owned()
            },
            FidoError::Permissions(text) => joined_pair(
                "failed to secure the recovered SSH file: ",
                text.as_str(),
            ),
            FidoError::ExistingHandleMismatch(path) => joined_pair(
                "the existing SSH handle file does not match the recovered hardware credential: ",
                path.as_str(),
            ),
            FidoError::Protocol(text) => joined_pair("FIDO helper protocol error: ", text),
            FidoError::Key(text) => joined_pair("FIDO key data is invalid: ", text.as_str()),
            FidoError::Encoding(text) => joined_pair("FIDO key encoding failed: ", text.as_str()),
            FidoError::NotSecurityKey => {
                "the selected file is not an OpenSSH ecdsa-sk or ed25519-sk FIDO handle".to_owned()
            },
            FidoError::Join(text) => joined_pair(
                "the FIDO signing task could not be completed: ",
                text.as_str(),
            ),
            FidoError::SessionClosed => {
                "the SSH session closed before FIDO signing completed".to_owned()
            },
        }
    }
}

#[derive(Debug, Clone, Copy, PartialEq, Eq, Structural)]
pub enum FidoAlgorithm {
    EcdsaSk,
}

/// A handle file and the key in it.
#[derive(Debug, PartialEq, Eq)]
pub struct FidoKeyInfo {
    pub path: String,
    pub fingerprint: String,
    pub algorithm: String,
    pub public_key: String,
}

impl FidoAlgorithm {
    pub fn helper_key_type(self) -> (r: u32)
        ensures
            r == KEY_ECDSA_SK,
    {
        match self {
            Self::EcdsaSk => KEY_ECDSA_SK,
        }
    }
}

/// What a new credential is to be like.
#[derive(Debug, Clone, Copy, PartialEq, Eq)]
pub struct FidoEnrollment {
    pub algorithm: FidoAlgorithm,
    pub application: &'static str,
    pub user_id: &'static str,
    pub flags: u8,
}

/// A credential that stays on the hardware key and can be recovered from it.
pub fn recoverable_enrollment() -> (r: FidoEnrollment)
    ensures
        r.algorithm == FidoAlgorithm::EcdsaSk,
        r.application@ == "ssh:"@,
        r.user_id@ == ""@,
        r.flags == 0x21,
        r.flags == FLAG_USER_PRESENCE | FLAG_RESIDENT,
{
    assert(0x01u8 | 0x20u8 == 0x21u8) by (bit_vector);
    FidoEnrollment {
        algorithm: FidoAlgorithm::EcdsaSk,
        application: "ssh:",
        user_id: "",
        flags: FLAG_USER_PRESENCE | FLAG_RESIDENT,
    }
}

/// A credential whose handle exists only in a file.
pub fn compatible_enrollment() -> (r: FidoEnrollment)
    ensures
        r.algorithm == FidoAlgorithm::EcdsaSk,
        r.application@ == "ssh:"@,
        r.user_id@ == ""@,
        r.flags == FLAG_USER_PRESENCE,
{
    FidoEnrollment {
        algorithm: FidoAlgorithm::EcdsaSk,
        application: "ssh:",
        user_id: "",
        flags: FLAG_USER_PRESENCE,
    }
}

/// Appends bytes, one for one.
pub(crate) fn append_bytes(output: &mut Vec<u8>, value: &[u8])
    ensures
        final(output)@ == old(output)@ + value@,
{
    let mut i: usize = 0;
    while i < value.len()
        invariant
            i <= value@.len(),
            output@ == old(output)@ + value@.take(i as int),
        decreases value@.len() - i,
    {
        output.push(value[i]);
        assert(value@.take(i + 1) =~= value@.take(i as int).push(value@[i as int]));
        assert(output@ =~= old(output)@ + value@.take(i + 1));
        i = i + 1;
    }
    assert(value@.take(value@.len() as int) =~= value@);
}

/// The signature goes behind the packet that was signed.
pub fn append_auth_signature(authentication_packet: Vec<u8>, signature: &[u8]) -> (r: Vec<u8>)
    ensures
        r@ == authentication_packet@ + signature@,
{
    let mut packet = authentication_packet;
    append_bytes(&mut packet, signature);
    packet
}

/// A number in four bytes, most significant first.
pub open spec fn be_bytes(value: u32) -> Seq<u8> {
    seq![
        (value / 0x1000000) as u8,
        (value / 0x10000 % 0x100) as u8,
        (value / 0x100 % 0x100) as u8,
        (value % 0x100) as u8,
    ]
}

/// The number in the first four bytes, most significant first.
pub open spec fn be_value(bytes: Seq<u8>) -> int {
    bytes[0] * 0x1000000 + bytes[1] * 0x10000 + bytes[2] * 0x100 + bytes[3]
}

/// Bytes behind their length in four bytes.
pub open spec fn framed(value: Seq<u8>) -> Seq<u8> {
    be_bytes(value.len() as u32) + value
}

pub fn put_u32(output: &mut Vec<u8>, value: u32)
    ensures
        final(output)@ == old(output)@ + be_bytes(value),
{
    output.push((value / 0x1000000) as u8);
    output.push((value / 0x10000 % 0x100) as u8);
    output.push((value / 0x100 % 0x100) as u8);
    output.push((value % 0x100) as u8);
    assert(output@ =~= old(output)@ + be_bytes(value));
}

pub fn put_string(output: &mut Vec<u8>, value: &[u8])
    ensures
        final(output)@ == old(output)@ + framed(value@),
{
    put_u32(output, value.len() as u32);
    append_bytes(output, value);
    assert(output@ =~= old(output)@ + framed(value@));
}

/// Takes one byte off the front.
pub fn take_u8(input: &mut &[u8]) -> (r: Result<u8, FidoError>)
    ensures
        if old(input)@.len() >= 1 {
            r == Ok::<u8, FidoError>(old(input)@[0]) && final(input)@ == old(input)@.skip(1)
        } else {
            (r matches Err(FidoError::Protocol(text)) && text@ == "truncated u8"@) && final(input)@
                == old(input)@
        },
{
    let bytes: &[u8] = *input;
    if bytes.len() < 1 {
        return Err(FidoError::Protocol("truncated u8"));
    }
    let value: u8 = bytes[0];
    *input = slice_subrange(bytes, 1, bytes.len());
    Ok(value)
}

/// Takes a number of four bytes off the front.
pub fn take_u32(input: &mut &[u8]) -> (r: Result<u32, FidoError>)
    ensures
        if old(input)@.len() >= 4 {
            (r matches Ok(value) && value == be_value(old(input)@)) && final(input)@
                == old(input)@.skip(4)
        } else {
            (r matches Err(FidoError::Protocol(text)) && text@ == "truncated u32"@) && final(input)@
                == old(input)@
        },
{
    let bytes: &[u8] = *input;
    if bytes.len() < 4 {
        return Err(FidoError::Protocol("truncated u32"));
    }
    let value: u32 = bytes[0] as u32 * 0x1000000 + bytes[1] as u32 * 0x10000 + bytes[2] as u32
        * 0x100 + bytes[3] as u32;
    *input = slice_subrange(bytes, 4, bytes.len());
    Ok(value)
}

/// A framed string stands at the front of the bytes.
pub open spec fn has_string(bytes: Seq<u8>) -> bool {
    bytes.len() >= 4 && bytes.len() - 4 >= be_value(bytes)
}

/// The string at the front.
pub open spec fn first_string(bytes: Seq<u8>) -> Seq<u8> {
    bytes.subrange(4, 4 + be_value(bytes))
}

/// What follows the string at the front.
pub open spec fn after_string(bytes: Seq<u8>) -> Seq<u8> {
    bytes.skip(4 + be_value(bytes))
}

/// The failure of bytes without a string at the front.
pub open spec fn string_error(bytes: Seq<u8>) -> Seq<char> {
    if bytes.len() < 4 {
        "truncated u32"@
    } else {
        "truncated string"@
    }
}

/// Takes a framed string off the front. Where the string is cut short, its length is gone
/// nevertheless.
pub fn take_string(input: &mut &[u8]) -> (r: Result<Vec<u8>, FidoError>)
    ensures
        if has_string(old(input)@) {
            (r matches Ok(value) && value@ == first_string(old(input)@)) && final(input)@
                == after_string(old(input)@)
        } else {
            (r matches Err(FidoError::Protocol(text)) && text@ == string_error(old(input)@))
                && final(input)@ == if old(input)@.len() < 4 {
                old(input)@
            } else {
                old(input)@.skip(4)
            }
        },
{
    let length: usize = match take_u32(input) {
        Ok(length) => length as usize,
        Err(error) => {
            return Err(error);
        },
    };
    let bytes: &[u8] = *input;
    if bytes.len() < length {
        return Err(FidoError::Protocol("truncated string"));
    }
    let mut value: Vec<u8> = Vec::new();
    append_bytes(&mut value, slice_subrange(bytes, 0, length));
    *input = slice_subrange(bytes, length, bytes.len());
    proof {
        let all = old(input)@;
        assert(value@ =~= first_string(all));
        assert(input@ =~= after_string(all));
    }
    Ok(value)
}

pub fn ensure_empty(input: &[u8]) -> (r: Result<(), FidoError>)
    ensures
        if input@.len() == 0 {
            r is Ok
        } else {
            r matches Err(FidoError::Protocol(text)) && text@ == "trailing helper data"@
        },
{
    if input.len() == 0 {
        Ok(())
    } else {
        Err(FidoError::Protocol("trailing helper data"))
    }
}

/// A number survives being written and read.
pub proof fn numbers_round_trip(value: u32, rest: Seq<u8>)
    ensures
        be_value(be_bytes(value) + rest) == value,
        (be_bytes(value) + rest).skip(4) == rest,
{
    assert((be_bytes(value) + rest).skip(4) =~= rest);
}

/// A string survives being framed and read, and what follows it is left for the next reader.
pub proof fn strings_round_trip(value: Seq<u8>, rest: Seq<u8>)
    requires
        value.len() <= u32::MAX,
    ensures
        has_string(framed(value) + rest),
        first_string(framed(value) + rest) == value,
        after_string(framed(value) + rest) == rest,
{
    let bytes = framed(value) + rest;
    assert(bytes =~= be_bytes(value.len() as u32) + (value + rest));
    numbers_round_trip(value.len() as u32, value + rest);
    assert(first_string(bytes) =~= value);
    assert(after_string(bytes) =~= rest);
}

/// The body of a request to sign data with a key.
pub open spec fn sign_body(key: Seq<u8>, data: Seq<u8>) -> Seq<u8> {
    framed(key) + framed(utf8_bytes("internal"@)) + framed(data) + framed(Seq::empty()) + be_bytes(0)
        + framed(Seq::empty())
}

/// The bytes of a text.
pub open spec fn utf8_bytes(text: Seq<char>) -> Seq<u8> {
    vstd::utf8::encode_utf8(text)
}

fn put_text(output: &mut Vec<u8>, text: &str)
    ensures
        final(output)@ == old(output)@ + framed(utf8_bytes(text@)),
{
    put_string(output, text.as_bytes());
}

fn put_nothing(output: &mut Vec<u8>)
    ensures
        final(output)@ == old(output)@ + framed(Seq::empty()),
{
    let empty: Vec<u8> = Vec::new();
    put_string(output, empty.as_slice());
}

pub fn sign_request(serialized_key: &[u8], data: &[u8]) -> (r: Vec<u8>)
    ensures
        r@ == sign_body(serialized_key@, data@),
{
    let mut body: Vec<u8> = Vec::new();
    put_string(&mut body, serialized_key);
    put_text(&mut body, "internal");
    put_string(&mut body, data);
    put_nothing(&mut body);
    put_u32(&mut body, 0);
    put_nothing(&mut body);
    assert(body@ =~= sign_body(serialized_key@, data@));
    body
}

/// The signature in a response, framed again for the authentication packet.
pub fn sign_response(response: &[u8]) -> (r: Result<Vec<u8>, FidoError>)
    ensures
        if !has_string(response@) {
            r matches Err(FidoError::Protocol(text)) && text@ == string_error(response@)
        } else if after_string(response@).len() > 0 {
            r matches Err(FidoError::Protocol(text)) && text@ == "trailing helper data"@
        } else {
            r matches Ok(encoded) && encoded@ == framed(first_string(response@))
        },
{
    let mut rest: &[u8] = response;
    let signature = match take_string(&mut rest) {
        Ok(signature) => signature,
        Err(error) => {
            return Err(error);
        },
    };
    if let Err(error) = ensure_empty(rest) {
        return Err(error);
    }
    let mut encoded: Vec<u8> = Vec::new();
    put_string(&mut encoded, signature.as_slice());
    assert(encoded@ =~= framed(signature@));
    Ok(encoded)
}

/// The body of a request to create a credential.
pub open spec fn enroll_body(
    application: Seq<char>,
    user_id: Seq<char>,
    flags: u8,
    pin: Seq<char>,
) -> Seq<u8> {
    be_bytes(KEY_ECDSA_SK) + framed(utf8_bytes("internal"@)) + framed(Seq::empty()) + framed(
        utf8_bytes(application),
    ) + framed(utf8_bytes(user_id)) + seq![flags] + framed(utf8_bytes(pin)) + framed(Seq::empty())
}

pub fn enroll_request(
    algorithm: FidoAlgorithm,
    application: &str,
    user_id: &str,
    flags: u8,
    pin: &str,
) -> (r: Result<Vec<u8>, FidoError>)
    ensures
        if "ssh:"@.is_prefix_of(application@) {
            r matches Ok(body) && body@ == enroll_body(application@, user_id@, flags, pin@)
        } else {
            r matches Err(FidoError::Protocol(text)) && text@
                == "FIDO SSH application must start with ssh:"@
        },
{
    if !crate::text::starts_with(application, "ssh:") {
        return Err(FidoError::Protocol("FIDO SSH application must start with ssh:"));
    }
    let mut body: Vec<u8> = Vec::new();
    put_u32(&mut body, algorithm.helper_key_type());
    put_text(&mut body, "internal");
    put_nothing(&mut body);
    put_text(&mut body, application);
    put_text(&mut body, user_id);
    body.push(flags);
    put_text(&mut body, pin);
    put_nothing(&mut body);
    assert(body@ =~= enroll_body(application@, user_id@, flags, pin@));
    Ok(body)
}

/// The failure of an enrollment: a resident credential that is there already has its own.
pub fn enroll_failure(error: FidoError, resident: bool) -> (r: FidoError)
    ensures
        r == if resident && (error matches FidoError::Helper { code, .. } && code
            == HELPER_CREDENTIAL_EXISTS) {
            FidoError::RecoverableCredentialExists
        } else {
            error
        },
{
    let exists = match &error {
        FidoError::Helper { code, .. } => *code == HELPER_CREDENTIAL_EXISTS,
        _ => false,
    };
    if resident && exists {
        FidoError::RecoverableCredentialExists
    } else {
        error
    }
}

/// Whether the flags ask for a resident credential.
pub fn is_resident(flags: u8) -> (r: bool)
    ensures
        r == (flags & FLAG_RESIDENT != 0),
{
    flags & FLAG_RESIDENT != 0
}

/// The serialised key in the response to an enrollment, which also holds an attestation.
pub fn enroll_response(response: &[u8]) -> (r: Result<Vec<u8>, FidoError>)
    ensures
        if !has_string(response@) {
            r matches Err(FidoError::Protocol(text)) && text@ == string_error(response@)
        } else if !has_string(after_string(response@)) {
            r matches Err(FidoError::Protocol(text)) && text@ == string_error(
                after_string(response@),
            )
        } else if after_string(after_string(response@)).len() > 0 {
            r matches Err(FidoError::Protocol(text)) && text@ == "trailing helper data"@
        } else {
            r matches Ok(serialized) && serialized@ == first_string(response@)
        },
{
    let mut rest: &[u8] = response;
    let serialized = match take_string(&mut rest) {
        Ok(serialized) => serialized,
        Err(error) => {
            return Err(error);
        },
    };
    if let Err(error) = take_string(&mut rest) {
        return Err(error);
    }
    if let Err(error) = ensure_empty(rest) {
        return Err(error);
    }
    Ok(serialized)
}

/// The body of a request for the resident credentials.
pub open spec fn resident_body(pin: Seq<char>) -> Seq<u8> {
    framed(utf8_bytes("internal"@)) + framed(Seq::empty()) + framed(utf8_bytes(pin)) + be_bytes(0)
}

pub fn resident_request(pin: &str) -> (r: Vec<u8>)
    ensures
        r@ == resident_body(pin@),
{
    let mut body: Vec<u8> = Vec::new();
    put_text(&mut body, "internal");
    put_nothing(&mut body);
    put_text(&mut body, pin);
    put_u32(&mut body, 0);
    assert(body@ =~= resident_body(pin@));
    body
}

/// What a response lists: each key is followed by a comment and a user name. A response that
/// breaks off gives the reason.
pub open spec fn resident_keys(response: Seq<u8>) -> Result<Seq<Seq<u8>>, Seq<char>>
    decreases response.len(),
{
    if response.len() == 0 {
        Ok(Seq::empty())
    } else {
        let comment = after_string(response);
        let user = after_string(comment);
        let rest = after_string(user);
        if !has_string(response) {
            Err(string_error(response))
        } else if !has_string(comment) {
            Err(string_error(comment))
        } else if !has_string(user) {
            Err(string_error(user))
        } else if rest.len() < response.len() {
            match resident_keys(rest) {
                Ok(keys) => Ok(seq![first_string(response)] + keys),
                Err(text) => Err(text),
            }
        } else {
            Err(string_error(response))
        }
    }
}

/// The contents of each entry of a list.
pub open spec fn contents(list: Seq<Vec<u8>>) -> Seq<Seq<u8>> {
    Seq::new(list.len(), |i: int| list[i]@)
}

/// The serialised keys in the response to a request for the resident credentials.
pub fn resident_response(response: &[u8]) -> (r: Result<Vec<Vec<u8>>, FidoError>)
    ensures
        match resident_keys(response@) {
            Ok(keys) => r matches Ok(found) && contents(found@) == keys,
            Err(text) => r matches Err(FidoError::Protocol(reason)) && reason@ == text,
        },
{
    let mut rest: &[u8] = response;
    let mut keys: Vec<Vec<u8>> = Vec::new();
    proof {
        match resident_keys(response@) {
            Ok(all) => assert(contents(keys@) + all =~= all),
            Err(_) => {},
        }
    }
    while rest.len() > 0
        invariant
            match resident_keys(response@) {
                Ok(all) => resident_keys(rest@) matches Ok(left) && contents(keys@) + left == all,
                Err(text) => resident_keys(rest@) == Err::<Seq<Seq<u8>>, Seq<char>>(text),
            },
        decreases rest@.len(),
    {
        let ghost here = rest@;
        let ghost before = contents(keys@);
        let serialized = match take_string(&mut rest) {
            Ok(serialized) => serialized,
            Err(error) => {
                return Err(error);
            },
        };
        if let Err(error) = take_string(&mut rest) {
            return Err(error);
        }
        if let Err(error) = take_string(&mut rest) {
            return Err(error);
        }
        keys.push(serialized);
        proof {
            assert(contents(keys@) =~= before.push(first_string(here)));
            match resident_keys(rest@) {
                Ok(left) => assert(contents(keys@) + left =~= before + (seq![first_string(here)]
                    + left)),
                Err(_) => {},
            }
        }
    }
    proof {
        match resident_keys(response@) {
            Ok(all) => assert(contents(keys@) =~= all),
            Err(_) => {},
        }
    }
    Ok(keys)
}

/// The bytes that go to the helper: version, type, an empty log setting, and the body.
pub open spec fn helper_payload(request_type: u32, body: Seq<u8>) -> Seq<u8> {
    seq![HELPER_VERSION] + be_bytes(request_type) + seq![0u8] + be_bytes(0) + body
}

pub fn helper_request(request_type: u32, body: &[u8]) -> (r: Vec<u8>)
    ensures
        r@ == framed(helper_payload(request_type, body@)),
{
    let mut payload: Vec<u8> = Vec::new();
    payload.push(HELPER_VERSION);
    put_u32(&mut payload, request_type);
    payload.push(0);
    put_u32(&mut payload, 0);
    append_bytes(&mut payload, body);
    assert(payload@ =~= helper_payload(request_type, body@));
    let mut framed_payload: Vec<u8> = Vec::new();
    put_string(&mut framed_payload, payload.as_slice());
    assert(framed_payload@ =~= framed(payload@));
    framed_payload
}

/// What an error code of the helper stands for.
pub open spec fn meaning_of(code: u32) -> Seq<char> {
    if code == 4 {
        "invalid request format or a generic FIDO provider failure"@
    } else if code == 43 {
        "a FIDO PIN is required or was rejected"@
    } else if code == 44 {
        "the credential already exists or replacement was denied"@
    } else if code == 59 {
        "the requested FIDO feature is unsupported"@
    } else if code == 60 {
        "no matching FIDO device was found"@
    } else {
        "unclassified OpenSSH helper failure"@
    }
}

pub fn helper_error_meaning(code: u32) -> (r: &'static str)
    ensures
        r@ == meaning_of(code),
{
    match code {
        4 => "invalid request format or a generic FIDO provider failure",
        43 => "a FIDO PIN is required or was rejected",
        44 => "the credential already exists or replacement was denied",
        59 => "the requested FIDO feature is unsupported",
        60 => "no matching FIDO device was found",
        _ => "unclassified OpenSSH helper failure",
    }
}

/// What the bytes of the helper come to.
pub enum HelperAnswer {
    /// The answer, without its header.
    Body(Seq<u8>),
    /// The helper reports an error.
    Error(u32),
    /// The bytes are not an answer to the request.
    Invalid(Seq<char>),
}

/// Reads an answer: one frame that holds the version, the type of the request and the body.
pub open spec fn helper_answer(request_type: u32, output: Seq<u8>) -> HelperAnswer {
    if output.len() > MAX_HELPER_RESPONSE_BYTES {
        HelperAnswer::Invalid("helper response exceeded the size limit"@)
    } else if !has_string(output) {
        HelperAnswer::Invalid(string_error(output))
    } else if after_string(output).len() > 0 {
        HelperAnswer::Invalid("trailing helper data"@)
    } else {
        let answer = first_string(output);
        if answer.len() < 1 {
            HelperAnswer::Invalid("truncated u8"@)
        } else if answer[0] != HELPER_VERSION {
            HelperAnswer::Invalid("helper protocol version mismatch"@)
        } else if answer.len() < 5 {
            HelperAnswer::Invalid("truncated u32"@)
        } else {
            let kind = be_value(answer.skip(1));
            let body = answer.skip(5);
            if kind == HELPER_ERROR {
                if body.len() < 4 {
                    HelperAnswer::Invalid("truncated u32"@)
                } else if body.len() > 4 {
                    HelperAnswer::Invalid("trailing helper data"@)
                } else {
                    HelperAnswer::Error(be_value(body) as u32)
                }
            } else if kind != request_type {
                HelperAnswer::Invalid("helper returned the wrong response type"@)
            } else {
                HelperAnswer::Body(body)
            }
        }
    }
}

/// The body of the helper's answer to a request of this type.
pub fn helper_response(request_type: u32, output: &[u8]) -> (r: Result<Vec<u8>, FidoError>)
    ensures
        match helper_answer(request_type, output@) {
            HelperAnswer::Body(body) => r matches Ok(found) && found@ == body,
            HelperAnswer::Error(code) => r matches Err(FidoError::Helper { code: found, meaning })
                && found == code && meaning@ == meaning_of(code),
            HelperAnswer::Invalid(text) => r matches Err(FidoError::Protocol(reason)) && reason@
                == text,
        },
{
    if output.len() > MAX_HELPER_RESPONSE_BYTES {
        return Err(FidoError::Protocol("helper response exceeded the size limit"));
    }
    let mut frame: &[u8] = output;
    let answer = match take_string(&mut frame) {
        Ok(answer) => answer,
        Err(error) => {
            return Err(error);
        },
    };
    if let Err(error) = ensure_empty(frame) {
        return Err(error);
    }
    let mut rest: &[u8] = answer.as_slice();
    match take_u8(&mut rest) {
        Ok(version) => if version != HELPER_VERSION {
            return Err(FidoError::Protocol("helper protocol version mismatch"));
        },
        Err(error) => {
            return Err(error);
        },
    }
    let kind: u32 = match take_u32(&mut rest) {
        Ok(kind) => kind,
        Err(error) => {
            return Err(error);
        },
    };
    assert(rest@ =~= answer@.skip(5));
    if kind == HELPER_ERROR {
        let code: u32 = match take_u32(&mut rest) {
            Ok(code) => code,
            Err(error) => {
                return Err(error);
            },
        };
        if let Err(error) = ensure_empty(rest) {
            return Err(error);
        }
        return Err(FidoError::Helper { code, meaning: helper_error_meaning(code) });
    }
    if kind != request_type {
        return Err(FidoError::Protocol("helper returned the wrong response type"));
    }
    let mut body: Vec<u8> = Vec::new();
    append_bytes(&mut body, rest);
    assert(body@ =~= rest@);
    Ok(body)
}

/// An answer that the helper frames for a request is read back as its body.
pub proof fn helper_answers_round_trip(request_type: u32, body: Seq<u8>)
    requires
        request_type != HELPER_ERROR,
        body.len() + 9 <= MAX_HELPER_RESPONSE_BYTES,
    ensures
        helper_answer(
            request_type,
            framed(seq![HELPER_VERSION] + be_bytes(request_type) + body),
        ) == HelperAnswer::Body(body),
{
    let answer = seq![HELPER_VERSION] + be_bytes(request_type) + body;
    let output = framed(answer);
    strings_round_trip(answer, Seq::empty());
    assert(output + Seq::<u8>::empty() =~= output);
    assert(answer.skip(1) =~= be_bytes(request_type) + body);
    numbers_round_trip(request_type, body);
    assert(answer.skip(5) =~= body);
}

/// The name is that of a security-key handle: it holds `_sk` and is not that of a public key.
pub open spec fn is_handle_name(name: Seq<char>) -> bool {
    contains_text(name, "_sk"@) && !".pub"@.is_suffix_of(name)
}

/// The file in the path has the name of a security-key handle.
pub open spec fn name_of_security_key(path: Seq<char>) -> bool {
    is_handle_name(file_name_of(path))
}

pub fn looks_like_fido_handle(path: &str) -> (r: bool)
    ensures
        r == name_of_security_key(path@),
{
    let name = file_name(path);
    crate::text::contains(name.as_str(), "_sk") && !ends_with(name.as_str(), ".pub")
}

/// ASCII letters and digits.
pub open spec fn is_alphanumeric(c: char) -> bool {
    ('0' <= c <= '9') || ('a' <= c <= 'z') || ('A' <= c <= 'Z')
}

/// The letters and digits of a text, the first `limit` of them.
pub open spec fn alphanumerics(text: Seq<char>, limit: int) -> Seq<char>
    decreases text.len(),
{
    if text.len() == 0 {
        Seq::empty()
    } else {
        let before = alphanumerics(text.drop_last(), limit);
        if is_alphanumeric(text.last()) && before.len() < limit {
            before.push(text.last())
        } else {
            before
        }
    }
}

/// The name of the file that a handle is saved in, from the fingerprint of its key.
pub open spec fn handle_name(fingerprint: Seq<char>, ed25519: bool) -> Seq<char> {
    "id_"@ + (if ed25519 {
        "ed25519_sk"@
    } else {
        "ecdsa_sk"@
    }) + "_"@ + alphanumerics(fingerprint, 16)
}

pub fn handle_file_name(fingerprint: &str, ed25519: bool) -> (r: String)
    ensures
        r@ == handle_name(fingerprint@, ed25519),
{
    let chars = chars_of(fingerprint);
    let mut short: Vec<char> = Vec::new();
    let mut i: usize = 0;
    assert(short@ =~= alphanumerics(chars@.take(0), 16));
    while i < chars.len()
        invariant
            i <= chars@.len(),
            short@ == alphanumerics(chars@.take(i as int), 16),
        decreases chars@.len() - i,
    {
        assert(chars@.take(i + 1).drop_last() =~= chars@.take(i as int));
        let c: char = chars[i];
        let wanted = ('0' <= c && c <= '9') || ('a' <= c && c <= 'z') || ('A' <= c && c <= 'Z');
        if wanted && short.len() < 16 {
            short.push(c);
        }
        i = i + 1;
    }
    assert(chars@.take(chars@.len() as int) =~= chars@);
    let tail = string_of(short.as_slice());
    let mut name = "id_".to_owned();
    name.append(
        if ed25519 {
            "ed25519_sk"
        } else {
            "ecdsa_sk"
        },
    );
    name.append("_");
    name.append(tail.as_str());
    name
}

/// A saved handle has the name of a handle, whatever the fingerprint is.
pub proof fn saved_handles_look_like_handles(fingerprint: Seq<char>, ed25519: bool)
    ensures
        is_handle_name(handle_name(fingerprint, ed25519)),
{
    reveal_strlit("id_");
    reveal_strlit("ed25519_sk");
    reveal_strlit("ecdsa_sk");
    reveal_strlit("_");
    reveal_strlit("_sk");
    reveal_strlit(".pub");
    let name = handle_name(fingerprint, ed25519);
    let at: int = if ed25519 {
        10
    } else {
        8
    };
    assert(name.subrange(at, at + 3) =~= "_sk"@);
    assert(occurs_at(name, "_sk"@, at));
    lemma_alphanumerics(fingerprint, 16);
    if ".pub"@.is_suffix_of(name) {
        let short = alphanumerics(fingerprint, 16);
        let dot = name.len() - 4;
        assert(name.subrange(dot, name.len() as int)[0] == ".pub"@[0]);
        let head = name.len() - short.len();
        assert(name[head - 1] == '_' && name[head - 2] == 'k' && name[head - 3] == 's' && name[head
            - 4] == '_');
        if dot >= head {
            assert(name[dot] == short[dot - head]);
            assert(is_alphanumeric(short[dot - head]));
        }
    }
}

proof fn lemma_alphanumerics(text: Seq<char>, limit: int)
    ensures
        forall|i: int|
            0 <= i < alphanumerics(text, limit).len() ==> is_alphanumeric(
                #[trigger] alphanumerics(text, limit)[i],
            ),
    decreases text.len(),
{
    if text.len() > 0 {
        let before = alphanumerics(text.drop_last(), limit);
        lemma_alphanumerics(text.drop_last(), limit);
        assert forall|i: int| 0 <= i < alphanumerics(text, limit).len() implies is_alphanumeric(
            #[trigger] alphanumerics(text, limit)[i],
        ) by {
            if i < before.len() {
                assert(alphanumerics(text, limit)[i] == before[i]);
            }
        }
    }
}

/// A request to sign hands over the key first and the data third.
pub proof fn sign_requests_hold_key_and_data(key: Seq<u8>, data: Seq<u8>)
    requires
        key.len() <= u32::MAX,
        data.len() <= u32::MAX,
        utf8_bytes("internal"@).len() <= u32::MAX,
    ensures
        ({
            let body = sign_body(key, data);
            &&& has_string(body) && first_string(body) == key
            &&& first_string(after_string(body)) == utf8_bytes("internal"@)
            &&& first_string(after_string(after_string(body))) == data
        }),
{
    let provider = utf8_bytes("internal"@);
    let end = framed(Seq::empty()) + be_bytes(0) + framed(Seq::empty());
    let body = sign_body(key, data);
    assert(body =~= framed(key) + (framed(provider) + (framed(data) + end)));
    strings_round_trip(key, framed(provider) + (framed(data) + end));
    strings_round_trip(provider, framed(data) + end);
    strings_round_trip(data, end);
}

/// A request for the credentials on a key hands over the PIN third.
pub proof fn resident_requests_hold_the_pin(pin: Seq<char>)
    requires
        utf8_bytes(pin).len() <= u32::MAX,
        utf8_bytes("internal"@).len() <= u32::MAX,
    ensures
        first_string(after_string(after_string(resident_body(pin)))) == utf8_bytes(pin),
{
    let provider = utf8_bytes("internal"@);
    let none = Seq::<u8>::empty();
    let body = resident_body(pin);
    let end = be_bytes(0);
    assert(body =~= framed(provider) + (framed(none) + (framed(utf8_bytes(pin)) + end)));
    strings_round_trip(provider, framed(none) + (framed(utf8_bytes(pin)) + end));
    strings_round_trip(none, framed(utf8_bytes(pin)) + end);
    strings_round_trip(utf8_bytes(pin), end);
}

/// A request for a new credential names the application, the user, the flags and the PIN, in this
/// order.
pub proof fn enrollments_hold_what_was_asked(
    application: Seq<char>,
    user_id: Seq<char>,
    flags: u8,
    pin: Seq<char>,
)
    requires
        utf8_bytes(application).len() <= u32::MAX,
        utf8_bytes(user_id).len() <= u32::MAX,
        utf8_bytes(pin).len() <= u32::MAX,
        utf8_bytes("internal"@).len() <= u32::MAX,
    ensures
        ({
            let body = enroll_body(application, user_id, flags, pin);
            let named = after_string(after_string(body.skip(4)));
            let user = after_string(named);
            let flag = after_string(user);
            &&& be_value(body) == 10
            &&& first_string(named) == utf8_bytes(application)
            &&& first_string(user) == utf8_bytes(user_id)
            &&& flag[0] == flags
            &&& first_string(flag.skip(1)) == utf8_bytes(pin)
        }),
{
    let provider = utf8_bytes("internal"@);
    let none = Seq::<u8>::empty();
    let e = framed(utf8_bytes(pin)) + framed(none);
    let d = seq![flags] + e;
    let c = framed(utf8_bytes(user_id)) + d;
    let b = framed(utf8_bytes(application)) + c;
    let a = framed(none) + b;
    let body = enroll_body(application, user_id, flags, pin);
    assert(body =~= be_bytes(KEY_ECDSA_SK) + (framed(provider) + a));
    numbers_round_trip(KEY_ECDSA_SK, framed(provider) + a);
    strings_round_trip(provider, a);
    strings_round_trip(none, b);
    strings_round_trip(utf8_bytes(application), c);
    strings_round_trip(utf8_bytes(user_id), d);
    assert(d.skip(1) =~= e);
    strings_round_trip(utf8_bytes(pin), framed(none));
}

/// What goes to the helper names the version of the protocol and the type of the request, and ends
/// with the body.
pub proof fn requests_name_their_type(request_type: u32, body: Seq<u8>)
    ensures
        helper_payload(request_type, body)[0] == 5,
        be_value(helper_payload(request_type, body).skip(1)) == request_type,
        helper_payload(request_type, body).skip(10) == body,
{
    let payload = helper_payload(request_type, body);
    let rest = seq![0u8] + be_bytes(0) + body;
    assert(payload.skip(1) =~= be_bytes(request_type) + rest);
    numbers_round_trip(request_type, rest);
    assert(payload.skip(10) =~= body);
}

/// An error of the helper is read as one, and the answer to another request is refused.
pub proof fn helper_errors_are_read(request_type: u32, code: u32, other: u32, body: Seq<u8>)
    requires
        other != 0,
        other != request_type,
        body.len() + 9 <= MAX_HELPER_RESPONSE_BYTES,
    ensures
        helper_answer(request_type, framed(seq![5u8] + be_bytes(0) + be_bytes(code)))
            == HelperAnswer::Error(code),
        helper_answer(request_type, framed(seq![5u8] + be_bytes(other) + body)) is Invalid,
{
    let answer = seq![5u8] + be_bytes(0) + be_bytes(code);
    let none = Seq::<u8>::empty();
    strings_round_trip(answer, none);
    assert(framed(answer) + none =~= framed(answer));
    assert(answer.skip(1) =~= be_bytes(0) + be_bytes(code));
    numbers_round_trip(0, be_bytes(code));
    assert(answer.skip(5) =~= be_bytes(code) + none);
    numbers_round_trip(code, none);
    let wrong = seq![5u8] + be_bytes(other) + body;
    strings_round_trip(wrong, none);
    assert(framed(wrong) + none =~= framed(wrong));
    assert(wrong.skip(1) =~= be_bytes(other) + body);
    numbers_round_trip(other, body);
}

/// Every credential that the helper lists is found, in order; its comment and its user are passed
/// over.
pub proof fn listed_credentials_are_found(
    key: Seq<u8>,
    comment: Seq<u8>,
    user: Seq<u8>,
    rest: Seq<u8>,
)
    requires
        key.len() <= u32::MAX,
        comment.len() <= u32::MAX,
        user.len() <= u32::MAX,
    ensures
        resident_keys(rest) is Ok ==> resident_keys(
            framed(key) + framed(comment) + framed(user) + rest,
        ) == Ok::<Seq<Seq<u8>>, Seq<char>>(seq![key] + resident_keys(rest)->Ok_0),
        resident_keys(rest) is Err ==> resident_keys(
            framed(key) + framed(comment) + framed(user) + rest,
        ) is Err,
        resident_keys(Seq::empty()) == Ok::<Seq<Seq<u8>>, Seq<char>>(Seq::empty()),
{
    let all = framed(key) + framed(comment) + framed(user) + rest;
    assert(all =~= framed(key) + (framed(comment) + (framed(user) + rest)));
    strings_round_trip(key, framed(comment) + (framed(user) + rest));
    strings_round_trip(comment, framed(user) + rest);
    strings_round_trip(user, rest);
}

/// The codes of the helper that the user can do something about have a meaning of their own.
pub proof fn known_errors_have_meanings(code: u32)
    ensures
        code == 43 ==> meaning_of(code) == "a FIDO PIN is required or was rejected"@,
        code == 44 ==> meaning_of(code) == "the credential already exists or replacement was denied"@,
        code == 60 ==> meaning_of(code) == "no matching FIDO device was found"@,
        code != 4 && code != 43 && code != 44 && code != 59 && code != 60 ==> meaning_of(code)
            == "unclassified OpenSSH helper failure"@,
{
}

} // verus!
