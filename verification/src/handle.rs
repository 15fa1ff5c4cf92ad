//! Security-key handles: what a key file holds, which handles are offered, and how one is saved.
use vstd::prelude::*;

use russh::keys::ssh_encoding::{Decode, Encode};
use russh::keys::ssh_key::private::{self, KeypairData};
use russh::keys::ssh_key::{public, LineEnding};
use russh::keys::{HashAlg, PrivateKey};

use crate::fido::{
    handle_file_name, handle_name, FidoError, FidoKeyInfo, FLAG_RESIDENT, FLAG_USER_PRESENCE,
};
use crate::paths::{is_path_before, lemma_key_order, path_before, path_key};
use crate::text::same_text;

verus! {

/// What only the hardware knows how to use, and what it is told.
#[derive(Debug, PartialEq, Eq)]
pub struct SecurityKey {
    pub ed25519: bool,
    pub flags: u8,
    pub handle: Vec<u8>,
}

/// What a key says of itself.
#[derive(Debug, PartialEq, Eq)]
pub struct KeyFacts {
    pub fingerprint: String,
    pub algorithm: String,
    pub public_key: Result<String, String>,
}

/// A key that was decoded, and how many bytes stand behind it.
#[derive(Debug, PartialEq, Eq)]
pub struct DecodedKey {
    pub rest: usize,
    pub security: Option<SecurityKey>,
    pub facts: Result<KeyFacts, String>,
}

pub struct SecurityModel {
    pub ed25519: bool,
    pub flags: u8,
    pub handle: Seq<u8>,
}

pub struct FactsModel {
    pub fingerprint: Seq<char>,
    pub algorithm: Seq<char>,
    pub public_key: Result<Seq<char>, Seq<char>>,
}

pub struct DecodedModel {
    pub rest: int,
    pub security: Option<SecurityModel>,
    pub facts: Result<FactsModel, Seq<char>>,
}

pub open spec fn text_result(result: Result<String, String>) -> Result<Seq<char>, Seq<char>> {
    match result {
        Ok(text) => Ok(text@),
        Err(text) => Err(text@),
    }
}

impl View for SecurityKey {
    type V = SecurityModel;

    open spec fn view(&self) -> SecurityModel {
        SecurityModel { ed25519: self.ed25519, flags: self.flags, handle: self.handle@ }
    }
}

impl View for KeyFacts {
    type V = FactsModel;

    open spec fn view(&self) -> FactsModel {
        FactsModel {
            fingerprint: self.fingerprint@,
            algorithm: self.algorithm@,
            public_key: text_result(self.public_key),
        }
    }
}

impl View for DecodedKey {
    type V = DecodedModel;

    open spec fn view(&self) -> DecodedModel {
        DecodedModel {
            rest: self.rest as int,
            security: match self.security {
                Some(security) => Some(security@),
                None => None,
            },
            facts: match self.facts {
                Ok(facts) => Ok(facts@),
                Err(text) => Err(text@),
            },
        }
    }
}

pub open spec fn decoded_model(result: Result<DecodedKey, String>) -> Result<
    DecodedModel,
    Seq<char>,
> {
    match result {
        Ok(decoded) => Ok(decoded@),
        Err(text) => Err(text@),
    }
}

/// A key that was read from its bytes, and how many bytes stand behind it.
#[derive(Debug, PartialEq, Eq)]
pub struct Keypair {
    pub rest: usize,
    pub security: Option<SecurityKey>,
}

pub open spec fn security_model(security: Option<SecurityKey>) -> Option<SecurityModel> {
    match security {
        Some(security) => Some(security@),
        None => None,
    }
}

pub open spec fn keypair_model(result: Result<Keypair, String>) -> Result<
    (int, Option<SecurityModel>),
    Seq<char>,
> {
    match result {
        Ok(keypair) => Ok((keypair.rest as int, security_model(keypair.security))),
        Err(text) => Err(text@),
    }
}

pub open spec fn facts_model(result: Result<KeyFacts, String>) -> Result<FactsModel, Seq<char>> {
    match result {
        Ok(facts) => Ok(facts@),
        Err(text) => Err(text@),
    }
}

/// What `KeypairData::decode` makes of bytes: how many are left over, and what a security key
/// needs to know if the key is one that it signs for.
pub uninterp spec fn keypair_in(serialized: Seq<u8>) -> Result<
    (int, Option<SecurityModel>),
    Seq<char>,
>;

/// Decodes a key with `KeypairData::decode`. Which kind of key it is and how many bytes are left
/// over are read off; they depend on the bytes alone.
#[verifier::external_body]
fn read_keypair(serialized: &[u8]) -> (r: Result<Keypair, String>)
    ensures
        keypair_model(r) == keypair_in(serialized@),
{
    let mut reader = serialized;
    let data = KeypairData::decode(&mut reader).map_err(|error| error.to_string())?;
    let ecdsa = data.sk_ecdsa_p256().map(|key| (false, key.flags(), key.key_handle().to_vec()));
    let ed25519 = data.sk_ed25519().map(|key| (true, key.flags(), key.key_handle().to_vec()));
    let security = ecdsa.or(ed25519);
    Ok(Keypair {
        rest: reader.len(),
        security: security.map(|(ed25519, flags, handle)| SecurityKey { ed25519, flags, handle }),
    })
}

/// What the key that `PrivateKey::new` makes of the bytes of a key and of a comment says of
/// itself.
pub uninterp spec fn described_key(serialized: Seq<u8>, comment: Seq<u8>) -> Result<
    FactsModel,
    Seq<char>,
>;

/// Makes a key of its bytes and a comment with `PrivateKey::new`, and asks it for its fingerprint,
/// its algorithm and its public half. The answers depend on the bytes and the comment alone.
#[verifier::external_body]
fn describe_key(serialized: &[u8], comment: &[u8]) -> (r: Result<KeyFacts, String>)
    ensures
        facts_model(r) == described_key(serialized@, comment@),
{
    let mut reader = serialized;
    let data = KeypairData::decode(&mut reader).map_err(|error| error.to_string())?;
    let key = PrivateKey::new(data, comment).map_err(|error| error.to_string())?;
    Ok(KeyFacts {
        fingerprint: key.fingerprint(HashAlg::Sha256).to_string(),
        algorithm: key.algorithm().to_string(),
        public_key: key.public_key().to_openssh().map_err(|error| error.to_string()),
    })
}

/// What is known of a key from its bytes and a comment.
pub open spec fn decoded_keypair(serialized: Seq<u8>, comment: Seq<u8>) -> Result<
    DecodedModel,
    Seq<char>,
> {
    match keypair_in(serialized) {
        Err(text) => Err(text),
        Ok(keypair) => Ok(
            DecodedModel {
                rest: keypair.0,
                security: keypair.1,
                facts: described_key(serialized, comment),
            },
        ),
    }
}

fn decode_keypair(serialized: &[u8], comment: &[u8]) -> (r: Result<DecodedKey, String>)
    ensures
        decoded_model(r) == decoded_keypair(serialized@, comment@),
{
    match read_keypair(serialized) {
        Err(text) => Err(text),
        Ok(keypair) => {
            let facts = describe_key(serialized, comment);
            Ok(DecodedKey { rest: keypair.rest, security: keypair.security, facts })
        },
    }
}

/// The bytes of a key and its comment.
#[derive(Debug, PartialEq, Eq)]
pub struct KeyFile {
    pub serialized: Vec<u8>,
    pub comment: Vec<u8>,
}

pub open spec fn file_model(file: Option<KeyFile>) -> Option<(Seq<u8>, Seq<u8>)> {
    match file {
        Some(file) => Some((file.serialized@, file.comment@)),
        None => None,
    }
}

/// The key that `russh::keys::decode_secret_key` finds in the text of a file without a passphrase:
/// its bytes and its comment.
pub uninterp spec fn key_in_file(text: Seq<char>) -> Option<(Seq<u8>, Seq<u8>)>;

/// Reads the text of a key file with `russh::keys::decode_secret_key`, without a passphrase, and
/// encodes the key again. The outcome depends on the text alone.
#[verifier::external_body]
fn read_key_file(text: &str) -> (r: Option<KeyFile>)
    ensures
        file_model(r) == key_in_file(text@),
{
    let key = russh::keys::decode_secret_key(text, None).ok()?;
    let serialized = key.key_data().encode_vec().ok()?;
    Some(KeyFile { serialized, comment: key.comment().as_bytes().to_vec() })
}

/// A key that a security key signs for.
#[derive(Debug, PartialEq, Eq)]
pub struct FidoKey {
    pub security: SecurityKey,
    pub facts: KeyFacts,
}

pub struct FidoKeyModel {
    pub security: SecurityModel,
    pub facts: FactsModel,
}

impl View for FidoKey {
    type V = FidoKeyModel;

    open spec fn view(&self) -> FidoKeyModel {
        FidoKeyModel { security: self.security@, facts: self.facts@ }
    }
}

/// The comment of keys that this program makes.
pub open spec fn own_comment() -> Seq<u8> {
    seq![99u8, 111, 100, 101, 120, 45, 104, 111, 115, 116, 115]
}

fn comment_bytes() -> (r: Vec<u8>)
    ensures
        r@ == own_comment(),
{
    let r: Vec<u8> = vec![99u8, 111, 100, 101, 120, 45, 104, 111, 115, 116, 115];
    assert(r@ =~= own_comment());
    r
}

/// What becomes of the bytes of a key: nothing may stand behind it, and it must be one that a
/// security key signs for.
pub open spec fn checked_key(
    decoded: Result<DecodedModel, Seq<char>>,
    outcome: Result<FidoKey, FidoError>,
) -> bool {
    match decoded {
        Err(text) => outcome matches Err(FidoError::Key(reason)) && reason@ == text,
        Ok(decoded) => if decoded.rest != 0 {
            outcome matches Err(FidoError::Protocol(reason)) && reason@
                == "trailing data in serialized FIDO key"@
        } else {
            match (decoded.facts, decoded.security) {
                (Err(text), _) => outcome matches Err(FidoError::Key(reason)) && reason@ == text,
                (Ok(_), None) => outcome matches Err(FidoError::NotSecurityKey),
                (Ok(facts), Some(security)) => outcome is Ok && outcome->Ok_0@ == (FidoKeyModel {
                    security,
                    facts,
                }),
            }
        },
    }
}

/// The key is one that a security key signs for.
pub fn is_security_key(decoded: &DecodedKey) -> (r: bool)
    ensures
        r == (decoded@.security is Some),
{
    decoded.security.is_some()
}

/// The part of a key that its security key needs; a key that none signs for is refused.
pub fn ensure_security_key(security: Option<SecurityKey>) -> (r: Result<SecurityKey, FidoError>)
    ensures
        match r {
            Ok(found) => security == Some(found),
            Err(error) => security is None && error is NotSecurityKey,
        },
{
    match security {
        Some(security) => Ok(security),
        None => Err(FidoError::NotSecurityKey),
    }
}

pub fn check_key(decoded: Result<DecodedKey, String>) -> (r: Result<FidoKey, FidoError>)
    ensures
        checked_key(decoded_model(decoded), r),
{
    let decoded = match decoded {
        Err(text) => {
            return Err(FidoError::Key(text));
        },
        Ok(decoded) => decoded,
    };
    if decoded.rest != 0 {
        return Err(FidoError::Protocol("trailing data in serialized FIDO key"));
    }
    match decoded.facts {
        Err(text) => Err(FidoError::Key(text)),
        Ok(facts) => match ensure_security_key(decoded.security) {
            Err(error) => Err(error),
            Ok(security) => Ok(FidoKey { security, facts }),
        },
    }
}

/// Decodes a key that the helper or a recovery gave.
pub fn decode_private_key(serialized: &[u8]) -> (r: Result<FidoKey, FidoError>)
    ensures
        checked_key(decoded_keypair(serialized@, own_comment()), r),
{
    let comment = comment_bytes();
    check_key(decode_keypair(serialized, comment.as_slice()))
}

/// The handle in a file, if the file holds one.
pub open spec fn handle_in(text: Seq<char>) -> Option<FidoKeyModel> {
    match key_in_file(text) {
        None => None,
        Some(file) => usable_handle(decoded_keypair(file.0, file.1)),
    }
}

/// The handle among what was decoded, if it is one.
pub open spec fn usable_handle(decoded: Result<DecodedModel, Seq<char>>) -> Option<FidoKeyModel> {
    match decoded {
        Err(_) => None,
        Ok(decoded) => match (decoded.facts, decoded.security) {
            (Ok(facts), Some(security)) => Some(FidoKeyModel { security, facts }),
            _ => None,
        },
    }
}

pub open spec fn key_model(key: Option<FidoKey>) -> Option<FidoKeyModel> {
    match key {
        Some(key) => Some(key@),
        None => None,
    }
}

pub fn handle_of(decoded: Result<DecodedKey, String>) -> (r: Option<FidoKey>)
    ensures
        key_model(r) == usable_handle(decoded_model(decoded)),
{
    match decoded {
        Err(_) => None,
        Ok(decoded) => match (decoded.facts, decoded.security) {
            (Ok(facts), Some(security)) => Some(FidoKey { security, facts }),
            _ => None,
        },
    }
}

/// Reads the handle in a file, if the file holds one that needs no passphrase.
pub fn read_handle(text: &str) -> (r: Option<FidoKey>)
    ensures
        key_model(r) == handle_in(text@),
{
    match read_key_file(text) {
        None => None,
        Some(file) => handle_of(
            decode_keypair(file.serialized.as_slice(), file.comment.as_slice()),
        ),
    }
}

/// What is listed of a handle in a file.
pub fn key_info(path: &str, key: &FidoKey) -> (r: Result<FidoKeyInfo, FidoError>)
    ensures
        match key@.facts.public_key {
            Ok(public_key) => r is Ok && r->Ok_0.path@ == path@ && r->Ok_0.fingerprint@
                == key@.facts.fingerprint && r->Ok_0.algorithm@ == key@.facts.algorithm
                && r->Ok_0.public_key@ == public_key,
            Err(text) => r matches Err(FidoError::Key(reason)) && reason@ == text,
        },
{
    match &key.facts.public_key {
        Ok(public_key) => Ok(
            FidoKeyInfo {
                path: path.to_owned(),
                fingerprint: key.facts.fingerprint.clone(),
                algorithm: key.facts.algorithm.clone(),
                public_key: public_key.clone(),
            },
        ),
        Err(text) => Err(FidoError::Key(text.clone())),
    }
}

/// The credential can be recovered from the hardware alone.
pub open spec fn is_resident_key(security: SecurityModel) -> bool {
    security.flags & FLAG_RESIDENT != 0
}

pub fn is_resident_handle(key: &FidoKey) -> (r: bool)
    ensures
        r == is_resident_key(key@.security),
{
    key.security.flags & FLAG_RESIDENT != 0
}

pub open spec fn bytes_result(result: Result<Option<Vec<u8>>, String>) -> Result<
    Option<Seq<u8>>,
    Seq<char>,
> {
    match result {
        Ok(Some(bytes)) => Ok(Some(bytes@)),
        Ok(None) => Ok(None),
        Err(text) => Err(text@),
    }
}

/// The bytes of the key that `EcdsaPublicKey::from_sec1_bytes` and the constructors of
/// `SkEcdsaSha2NistP256` make of an application, flags, a credential and a point; nothing for a
/// point of another curve than P-256.
pub uninterp spec fn built_keypair(
    application: Seq<char>,
    flags: u8,
    credential: Seq<u8>,
    point: Seq<u8>,
) -> Result<Option<Seq<u8>>, Seq<char>>;

/// Builds a key from its point with `EcdsaPublicKey::from_sec1_bytes` and the constructors of
/// `SkEcdsaSha2NistP256`, and encodes it. The outcome depends on the arguments alone.
#[verifier::external_body]
fn build_keypair(application: &str, flags: u8, credential: &[u8], point: &[u8]) -> (r: Result<
    Option<Vec<u8>>,
    String,
>)
    ensures
        bytes_result(r) == built_keypair(application@, flags, credential@, point@),
{
    let point = match public::EcdsaPublicKey::from_sec1_bytes(point) {
        Ok(public::EcdsaPublicKey::NistP256(point)) => point,
        Ok(_) => return Ok(None),
        Err(error) => return Err(error.to_string()),
    };
    let public_key = public::SkEcdsaSha2NistP256::new(point, application);
    let key = private::SkEcdsaSha2NistP256::new(public_key, flags, credential)
        .map_err(|error| error.to_string())?;
    KeypairData::from(key).encode_vec().map(Some).map_err(|error| error.to_string())
}

/// What becomes of a key that was recovered.
pub fn check_recovered(built: Result<Option<Vec<u8>>, String>) -> (r: Result<Vec<u8>, FidoError>)
    ensures
        match bytes_result(built) {
            Ok(Some(bytes)) => r is Ok && r->Ok_0@ == bytes,
            Ok(None) => r matches Err(FidoError::WindowsRecovery(reason)) && reason@
                == "the recovered SSH credential is not an ECDSA P-256 key"@,
            Err(text) => r matches Err(FidoError::Key(reason)) && reason@ == text,
        },
{
    match built {
        Ok(Some(bytes)) => Ok(bytes),
        Ok(None) => Err(
            FidoError::WindowsRecovery(
                "the recovered SSH credential is not an ECDSA P-256 key".to_owned(),
            ),
        ),
        Err(text) => Err(FidoError::Key(text)),
    }
}

/// The key for a credential that stays on the hardware, from the public key that was recovered.
pub fn private_key_from_recovered_public_key(
    application: &str,
    credential_id: &[u8],
    public_key_bytes: &[u8],
) -> (r: Result<Vec<u8>, FidoError>)
    ensures
        match built_keypair(application@, 0x21, credential_id@, public_key_bytes@) {
            Ok(Some(bytes)) => r is Ok && r->Ok_0@ == bytes,
            Ok(None) => r matches Err(FidoError::WindowsRecovery(reason)) && reason@
                == "the recovered SSH credential is not an ECDSA P-256 key"@,
            Err(text) => r matches Err(FidoError::Key(reason)) && reason@ == text,
        },
{
    let flags: u8 = FLAG_USER_PRESENCE | FLAG_RESIDENT;
    assert(0x01u8 | 0x20u8 == 0x21u8) by (bit_vector);
    check_recovered(build_keypair(application, flags, credential_id, public_key_bytes))
}

/// The text that `PrivateKey::to_openssh` writes for the bytes of a key and a comment.
pub uninterp spec fn openssh_text(serialized: Seq<u8>, comment: Seq<u8>) -> Result<
    Seq<char>,
    Seq<char>,
>;

/// Writes a key as the text of its file with `PrivateKey::to_openssh`. The outcome depends on the
/// bytes and the comment alone.
#[verifier::external_body]
fn write_openssh(serialized: &[u8], comment: &[u8]) -> (r: Result<String, String>)
    ensures
        text_result(r) == openssh_text(serialized@, comment@),
{
    let mut reader = serialized;
    let data = KeypairData::decode(&mut reader).map_err(|error| error.to_string())?;
    PrivateKey::new(data, comment)
        .and_then(|key| key.to_openssh(LineEnding::LF))
        .map(|text| text.to_string())
        .map_err(|error| error.to_string())
}

/// The text of the file that a handle is saved in.
pub fn handle_text(serialized: &[u8]) -> (r: Result<String, FidoError>)
    ensures
        match openssh_text(serialized@, own_comment()) {
            Ok(text) => r is Ok && r->Ok_0@ == text,
            Err(text) => r matches Err(FidoError::Key(reason)) && reason@ == text,
        },
{
    let comment = comment_bytes();
    match write_openssh(serialized, comment.as_slice()) {
        Ok(text) => Ok(text),
        Err(text) => Err(FidoError::Key(text)),
    }
}

/// A file that is there already must hold the same key.
pub fn validate_existing_handle(
    path: &str,
    existing: &Option<FidoKey>,
    expected: &FidoKey,
) -> (r: Result<(), FidoError>)
    ensures
        r is Ok == (existing is Some && existing->0@.facts.public_key is Ok
            && existing->0@.facts.public_key == expected@.facts.public_key),
        r matches Err(error) ==> error matches FidoError::ExistingHandleMismatch(found) && found@
            == path@,
{
    let same = match existing {
        None => false,
        Some(key) => match (&key.facts.public_key, &expected.facts.public_key) {
            (Ok(a), Ok(b)) => same_text(a.as_str(), b.as_str()),
            _ => false,
        },
    };
    if same {
        Ok(())
    } else {
        Err(FidoError::ExistingHandleMismatch(path.to_owned()))
    }
}

/// The name of the file that a key is saved in.
pub fn handle_file(key: &FidoKey) -> (r: String)
    ensures
        r@ == handle_name(key@.facts.fingerprint, key@.security.ed25519),
{
    handle_file_name(key.facts.fingerprint.as_str(), key.security.ed25519)
}

/// The credentials of the handles that can be recovered, each once.
pub fn resident_credential_ids(keys: &Vec<FidoKey>) -> (r: Vec<Vec<u8>>)
    ensures
        crate::fido::contents(r@) == crate::webauthn::distinct(resident_handles(keys@)),
{
    let mut handles: Vec<Option<Vec<u8>>> = Vec::new();
    let mut i: usize = 0;
    while i < keys.len()
        invariant
            i <= keys@.len(),
            crate::webauthn::optional_contents(handles@) == resident_handles(
                keys@.take(i as int),
            ),
        decreases keys@.len() - i,
    {
        let ghost before = crate::webauthn::optional_contents(handles@);
        let ghost so_far = handles@;
        assert(so_far.len() == i) by {
            assert(before.len() == resident_handles(keys@.take(i as int)).len());
        }
        if is_resident_handle(&keys[i]) {
            let handle = keys[i].security.handle.clone();
            assert(handle@ =~= keys@[i as int].security.handle@);
            handles.push(Some(handle));
        } else {
            handles.push(None);
        }
        proof {
            let now = crate::webauthn::optional_contents(handles@);
            let wanted = resident_handles(keys@.take(i + 1));
            assert forall|j: int| 0 <= j < now.len() implies now[j] == wanted[j] by {
                assert(keys@.take(i + 1)[j] == keys@[j]);
                if j < i {
                    assert(handles@[j] == so_far[j]);
                    assert(now[j] == before[j]);
                    assert(before[j] == resident_handles(keys@.take(i as int))[j]);
                    assert(keys@.take(i as int)[j] == keys@[j]);
                }
            }
            assert(now =~= wanted);
        }
        i = i + 1;
    }
    assert(keys@.take(i as int) =~= keys@);
    crate::webauthn::distinct_keys(handles)
}

pub open spec fn resident_handles(keys: Seq<FidoKey>) -> Seq<Option<Seq<u8>>> {
    Seq::new(
        keys.len(),
        |i: int|
            if is_resident_key(keys[i]@.security) {
                Some(keys[i]@.security.handle)
            } else {
                None
            },
    )
}

/// A handle that was found, whether its credential can be recovered, and when its file was
/// changed, if that is known.
#[derive(Debug, PartialEq, Eq)]
pub struct FoundHandle {
    pub resident: bool,
    pub modified: Option<u64>,
    pub info: FidoKeyInfo,
}

pub struct FoundModel {
    pub resident: bool,
    pub modified: Option<u64>,
    pub path: Seq<char>,
    pub fingerprint: Seq<char>,
    pub algorithm: Seq<char>,
    pub public_key: Seq<char>,
}

impl View for FoundHandle {
    type V = FoundModel;

    open spec fn view(&self) -> FoundModel {
        FoundModel {
            resident: self.resident,
            modified: self.modified,
            path: self.info.path@,
            fingerprint: self.info.fingerprint@,
            algorithm: self.info.algorithm@,
            public_key: self.info.public_key@,
        }
    }
}

pub open spec fn found_models(found: Seq<FoundHandle>) -> Seq<FoundModel> {
    Seq::new(found.len(), |i: int| found[i]@)
}

/// A handle is changed later than another; one whose time is unknown counts as the oldest.
pub open spec fn changed_later(a: Option<u64>, b: Option<u64>) -> bool {
    match (a, b) {
        (Some(a), Some(b)) => a > b,
        (Some(_), None) => true,
        (None, _) => false,
    }
}

/// A handle is offered before another: those that can be recovered first, then those that were
/// changed last, then by their paths.
pub open spec fn offered_before(a: FoundModel, b: FoundModel) -> bool {
    if a.resident != b.resident {
        a.resident
    } else if a.modified != b.modified {
        changed_later(a.modified, b.modified)
    } else {
        path_before(a.path, b.path)
    }
}

fn is_offered_before(a: &FoundHandle, b: &FoundHandle) -> (r: bool)
    ensures
        r == offered_before(a@, b@),
{
    if a.resident != b.resident {
        return a.resident;
    }
    match (a.modified, b.modified) {
        (Some(x), Some(y)) => {
            if x != y {
                return x > y;
            }
        },
        (Some(_), None) => {
            return true;
        },
        (None, Some(_)) => {
            return false;
        },
        (None, None) => {},
    }
    is_path_before(a.info.path.as_str(), b.info.path.as_str())
}

proof fn lemma_offer_order(a: FoundModel, b: FoundModel, c: FoundModel)
    ensures
        !(offered_before(a, b) && offered_before(b, a)),
        !offered_before(b, a) && !offered_before(c, b) ==> !offered_before(c, a),
{
    lemma_key_order(path_key(a.path), path_key(b.path), path_key(c.path));
}

/// The handles stand in the order in which they are offered.
pub open spec fn offered_in_order(found: Seq<FoundModel>) -> bool {
    forall|i: int, j: int|
        0 <= i < j < found.len() ==> !offered_before(#[trigger] found[j], #[trigger] found[i])
}

/// The handles without those that show the key of the one in front of them.
pub open spec fn without_repeats(found: Seq<FoundModel>) -> Seq<FoundModel>
    decreases found.len(),
{
    if found.len() == 0 {
        Seq::empty()
    } else {
        let before = without_repeats(found.drop_last());
        if before.len() > 0 && before.last().fingerprint == found.last().fingerprint {
            before
        } else {
            before.push(found.last())
        }
    }
}

fn insert_found(sorted: &mut Vec<FoundHandle>, item: FoundHandle)
    requires
        offered_in_order(found_models(old(sorted)@)),
    ensures
        offered_in_order(found_models(final(sorted)@)),
        found_models(final(sorted)@).to_multiset() == found_models(
            old(sorted)@,
        ).to_multiset().insert(item@),
{
    let ghost before = found_models(sorted@);
    let ghost new = item@;
    let mut at: usize = sorted.len();
    while at > 0 && is_offered_before(&item, &sorted[at - 1])
        invariant
            at <= sorted@.len(),
            before == found_models(sorted@),
            new == item@,
            forall|i: int| at <= i < before.len() ==> offered_before(new, #[trigger] before[i]),
        decreases at,
    {
        assert(before[at - 1] == sorted@[at - 1]@);
        at = at - 1;
    }
    proof {
        if at > 0 {
            assert(before[at - 1] == sorted@[at - 1]@);
            assert(!offered_before(new, before[at - 1]));
        }
    }
    sorted.insert(at, item);
    let ghost after = found_models(sorted@);
    proof {
        assert(after =~= before.insert(at as int, new));
        vstd::seq_lib::to_multiset_insert(before, at as int, new);
        assert forall|i: int, j: int| 0 <= i < j < after.len() implies !offered_before(
            #[trigger] after[j],
            #[trigger] after[i],
        ) by {
            if j == at {
                assert(after[i] == before[i]);
                if i < at - 1 {
                    assert(!offered_before(before[at - 1], before[i]));
                    lemma_offer_order(before[i], before[at - 1], new);
                }
            } else if i == at {
                assert(after[j] == before[j - 1]);
                lemma_offer_order(new, before[j - 1], new);
            } else {
                let p = if i < at {
                    i
                } else {
                    i - 1
                };
                let q = if j < at {
                    j
                } else {
                    j - 1
                };
                assert(after[i] == before[p]);
                assert(after[j] == before[q]);
            }
        }
    }
}

/// What is listed of a handle.
pub open spec fn lists(info: FidoKeyInfo, found: FoundModel) -> bool {
    info.path@ == found.path && info.fingerprint@ == found.fingerprint && info.algorithm@
        == found.algorithm && info.public_key@ == found.public_key
}

fn copy_info(info: &FidoKeyInfo) -> (r: FidoKeyInfo)
    ensures
        r.path@ == info.path@,
        r.fingerprint@ == info.fingerprint@,
        r.algorithm@ == info.algorithm@,
        r.public_key@ == info.public_key@,
{
    FidoKeyInfo {
        path: info.path.clone(),
        fingerprint: info.fingerprint.clone(),
        algorithm: info.algorithm.clone(),
        public_key: info.public_key.clone(),
    }
}

/// The order holds the handles that were found, in the order in which they are offered.
pub open spec fn is_offer(sorted: Seq<FoundModel>, found: Seq<FoundModel>) -> bool {
    offered_in_order(sorted) && sorted.to_multiset() == found.to_multiset()
}

/// The list shows the handles one by one.
pub open spec fn lists_all(list: Seq<FidoKeyInfo>, found: Seq<FoundModel>) -> bool {
    list.len() == found.len() && forall|i: int|
        0 <= i < list.len() ==> lists(#[trigger] list[i], found[i])
}

/// The handles that are offered, out of those that were found.
pub fn arrange_handles(found: Vec<FoundHandle>) -> (r: Vec<FidoKeyInfo>)
    ensures
        exists|sorted: Seq<FoundModel>| #[trigger]
            is_offer(sorted, found_models(found@)) && lists_all(r@, without_repeats(sorted)),
{
    let ghost all = found_models(found@);
    let mut rest = found;
    let mut sorted: Vec<FoundHandle> = Vec::new();
    let ghost mut taken: int = 0;
    proof {
        assert(found_models(sorted@) =~= all.take(0));
        assert(all.skip(0) =~= all);
    }
    while rest.len() > 0
        invariant
            0 <= taken <= all.len(),
            found_models(rest@) == all.skip(taken),
            offered_in_order(found_models(sorted@)),
            found_models(sorted@).to_multiset() == all.take(taken).to_multiset(),
        decreases rest@.len(),
    {
        let ghost before = rest@;
        let item = rest.remove(0);
        proof {
            assert(found_models(before)[0] == item@);
            assert(found_models(before).len() == all.len() - taken);
            assert(all.skip(taken)[0] == all[taken]);
            assert(found_models(rest@) =~= found_models(before).skip(1));
            assert(all.skip(taken).skip(1) =~= all.skip(taken + 1));
            let so_far = all.take(taken);
            assert(all.take(taken + 1) =~= so_far.push(all[taken]));
            so_far.to_multiset_ensures();
            assert(so_far.push(all[taken]).to_multiset() =~= so_far.to_multiset().insert(
                all[taken],
            ));
        }
        insert_found(&mut sorted, item);
        proof {
            taken = taken + 1;
        }
    }
    proof {
        assert(found_models(rest@).len() == 0);
        assert(all.take(taken) =~= all);
    }
    let ghost order = found_models(sorted@);
    assert(is_offer(order, all));
    let mut out: Vec<FidoKeyInfo> = Vec::new();
    let mut i: usize = 0;
    assert(order.take(0) =~= Seq::empty());
    while i < sorted.len()
        invariant
            i <= sorted@.len(),
            order == found_models(sorted@),
            lists_all(out@, without_repeats(order.take(i as int))),
        decreases sorted@.len() - i,
    {
        let ghost before = without_repeats(order.take(i as int));
        assert(order.take(i + 1).drop_last() =~= order.take(i as int));
        assert(order.take(i + 1).last() == sorted@[i as int]@);
        let count: usize = out.len();
        let repeats = if count > 0 {
            assert(lists(out@[count - 1], before[count - 1]));
            same_text(out[count - 1].fingerprint.as_str(), sorted[i].info.fingerprint.as_str())
        } else {
            false
        };
        if !repeats {
            out.push(copy_info(&sorted[i].info));
        }
        i = i + 1;
    }
    assert(order.take(i as int) =~= order);
    out
}

/// The next thing to do to save a handle in its file.
#[derive(Debug, Clone, Copy, PartialEq, Eq, Structural)]
pub enum SaveHandle {
    /// Look whether the file is there.
    Look,
    /// Compare the file that is there.
    Compare { linked: bool },
    /// Secure the file that is there.
    SecureExisting,
    /// Create a temporary file and write the handle to it.
    WriteTemporary,
    /// Secure the temporary file.
    SecureTemporary,
    /// Give the temporary file the name of the handle, which must be free.
    Link,
    /// Linking failed: look whether the file is there by now.
    LookAgain,
    /// Remove the temporary file, which has the name of the handle as well.
    RemoveTemporary,
    /// Remove the temporary file; the handle was there already.
    CleanUp,
    /// Remove the temporary file, then fail.
    GiveUp,
    Saved,
    /// Fail as the step before did.
    Failed,
}

impl SaveHandle {
    /// What follows a step. Looking for a file succeeds if it is there; comparing succeeds if it
    /// holds the same key.
    pub open spec fn after(self, ok: bool) -> SaveHandle {
        match self {
            SaveHandle::Look => if ok {
                SaveHandle::Compare { linked: false }
            } else {
                SaveHandle::WriteTemporary
            },
            SaveHandle::Compare { linked } => if ok {
                if linked {
                    SaveHandle::CleanUp
                } else {
                    SaveHandle::SecureExisting
                }
            } else if linked {
                SaveHandle::GiveUp
            } else {
                SaveHandle::Failed
            },
            SaveHandle::SecureExisting => if ok {
                SaveHandle::Saved
            } else {
                SaveHandle::Failed
            },
            SaveHandle::WriteTemporary => if ok {
                SaveHandle::SecureTemporary
            } else {
                SaveHandle::GiveUp
            },
            SaveHandle::SecureTemporary => if ok {
                SaveHandle::Link
            } else {
                SaveHandle::GiveUp
            },
            SaveHandle::Link => if ok {
                SaveHandle::RemoveTemporary
            } else {
                SaveHandle::LookAgain
            },
            SaveHandle::LookAgain => if ok {
                SaveHandle::Compare { linked: true }
            } else {
                SaveHandle::GiveUp
            },
            SaveHandle::RemoveTemporary => if ok {
                SaveHandle::Saved
            } else {
                SaveHandle::GiveUp
            },
            SaveHandle::CleanUp => SaveHandle::Saved,
            SaveHandle::GiveUp => SaveHandle::Failed,
            SaveHandle::Saved => SaveHandle::Saved,
            SaveHandle::Failed => SaveHandle::Failed,
        }
    }

    pub fn first() -> (r: Self)
        ensures
            r == SaveHandle::Look,
    {
        SaveHandle::Look
    }

    pub fn next(self, ok: bool) -> (r: Self)
        ensures
            r == self.after(ok),
    {
        match self {
            SaveHandle::Look => if ok {
                SaveHandle::Compare { linked: false }
            } else {
                SaveHandle::WriteTemporary
            },
            SaveHandle::Compare { linked } => if ok {
                if linked {
                    SaveHandle::CleanUp
                } else {
                    SaveHandle::SecureExisting
                }
            } else if linked {
                SaveHandle::GiveUp
            } else {
                SaveHandle::Failed
            },
            SaveHandle::SecureExisting => if ok {
                SaveHandle::Saved
            } else {
                SaveHandle::Failed
            },
            SaveHandle::WriteTemporary => if ok {
                SaveHandle::SecureTemporary
            } else {
                SaveHandle::GiveUp
            },
            SaveHandle::SecureTemporary => if ok {
                SaveHandle::Link
            } else {
                SaveHandle::GiveUp
            },
            SaveHandle::Link => if ok {
                SaveHandle::RemoveTemporary
            } else {
                SaveHandle::LookAgain
            },
            SaveHandle::LookAgain => if ok {
                SaveHandle::Compare { linked: true }
            } else {
                SaveHandle::GiveUp
            },
            SaveHandle::RemoveTemporary => if ok {
                SaveHandle::Saved
            } else {
                SaveHandle::GiveUp
            },
            SaveHandle::CleanUp => SaveHandle::Saved,
            SaveHandle::GiveUp => SaveHandle::Failed,
            SaveHandle::Saved => SaveHandle::Saved,
            SaveHandle::Failed => SaveHandle::Failed,
        }
    }

    /// A handle file has its name: it was there and holds the same key, or was linked just now.
    pub open spec fn in_place(self) -> bool {
        match self {
            SaveHandle::SecureExisting => true,
            SaveHandle::RemoveTemporary => true,
            SaveHandle::CleanUp => true,
            SaveHandle::Saved => true,
            _ => false,
        }
    }
}

/// A handle counts as saved only once its file is in place: a file that was there is kept only if
/// it holds the same key, and one that is written gets its name only where that was free.
pub proof fn handles_are_never_overwritten(step: SaveHandle, ok: bool)
    requires
        step.after(ok).in_place(),
        !step.in_place(),
    ensures
        ok,
        step is Compare || step is Link,
{
}

/// Where the helper of the system lies.
pub fn helper_path(system_root: Option<&str>) -> (r: String)
    ensures
        r@ == (match system_root {
            Some(root) => root@,
            None => "C:\\Windows"@,
        }) + "\\System32\\OpenSSH\\ssh-sk-helper.exe"@,
{
    let mut path = match system_root {
        Some(root) => root.to_owned(),
        None => "C:\\Windows".to_owned(),
    };
    path.append("\\System32\\OpenSSH\\ssh-sk-helper.exe");
    path
}

/// Who may read a handle file: the user, with the domain in front where there is one.
pub fn file_owner(user: &str, domain: &str) -> (r: String)
    ensures
        r@ == if domain@.len() == 0 {
            user@
        } else {
            domain@ + "\\"@ + user@
        },
{
    if domain.is_empty() {
        return user.to_owned();
    }
    let mut name = domain.to_owned();
    name.append("\\");
    name.append(user);
    name
}

/// A key is accepted exactly where nothing stands behind it, it describes itself and a security key
/// signs for it; it is then the key that was decoded.
pub proof fn only_whole_hardware_keys_are_accepted(
    decoded: Result<DecodedModel, Seq<char>>,
    outcome: Result<FidoKey, FidoError>,
)
    requires
        checked_key(decoded, outcome),
    ensures
        outcome is Ok <==> decoded is Ok && decoded->Ok_0.rest == 0 && decoded->Ok_0.facts is Ok
            && decoded->Ok_0.security is Some,
        outcome matches Ok(key) ==> {
            &&& key.security.handle@ == decoded->Ok_0.security->0.handle
            &&& key.security.flags == decoded->Ok_0.security->0.flags
            &&& key.security.ed25519 == decoded->Ok_0.security->0.ed25519
            &&& key.facts.fingerprint@ == decoded->Ok_0.facts->Ok_0.fingerprint
            &&& key.facts.algorithm@ == decoded->Ok_0.facts->Ok_0.algorithm
        },
        decoded is Ok && decoded->Ok_0.rest == 0 && decoded->Ok_0.facts is Ok
            && decoded->Ok_0.security is None ==> outcome is Err && outcome->Err_0
            is NotSecurityKey,
{
    if let Ok(key) = outcome {
        assert(key@.security == decoded->Ok_0.security->0);
        assert(key@.facts == decoded->Ok_0.facts->Ok_0);
    }
}

/// A key file holds a handle exactly where its key describes itself and a security key signs for
/// it.
pub proof fn handles_are_hardware_keys(decoded: DecodedModel)
    ensures
        usable_handle(Ok(decoded)) is Some <==> decoded.facts is Ok && decoded.security is Some,
        usable_handle(Ok(decoded)) matches Some(key) ==> Some(key.security) == decoded.security
            && Ok::<FactsModel, Seq<char>>(key.facts) == decoded.facts,
{
}

/// Handles that can be recovered are offered before others, and of those alike the ones that were
/// changed later.
pub proof fn recoverable_handles_come_first(a: FoundModel, b: FoundModel)
    ensures
        a.resident && !b.resident ==> offered_before(a, b) && !offered_before(b, a),
        a.resident == b.resident && a.modified is Some && b.modified is Some && a.modified->0
            > b.modified->0 ==> offered_before(a, b) && !offered_before(b, a),
        a.resident == b.resident && a.modified is Some && b.modified is None ==> offered_before(
            a,
            b,
        ),
        a.resident == b.resident && a.modified == b.modified ==> (offered_before(a, b)
            <==> path_before(a.path, b.path)),
{
}

/// Of handles that show one key in a row the first is listed; no other is lost, and none is listed
/// that was not found.
pub proof fn every_key_is_listed(found: Seq<FoundModel>, i: int)
    requires
        0 <= i < found.len(),
    ensures
        exists|k: int|
            0 <= k < without_repeats(found).len() && (#[trigger] without_repeats(
                found,
            )[k]).fingerprint == found[i].fingerprint,
        forall|k: int|
            0 <= k < without_repeats(found).len() ==> found.contains(
                #[trigger] without_repeats(found)[k],
            ),
        forall|k: int|
            0 < k < without_repeats(found).len() ==> (#[trigger] without_repeats(
                found,
            )[k]).fingerprint != without_repeats(found)[k - 1].fingerprint,
        without_repeats(found)[0] == found[0],
    decreases found.len(),
{
    let short = found.drop_last();
    let before = without_repeats(short);
    let all = without_repeats(found);
    if short.len() > 0 {
        every_key_is_listed(short, if i < short.len() {
            i
        } else {
            0
        });
        assert(short[0] == found[0]);
    }
    assert forall|k: int| 0 <= k < all.len() implies found.contains(#[trigger] all[k]) by {
        if k < before.len() {
            assert(all[k] == before[k]);
            let j = choose|j: int| 0 <= j < short.len() && short[j] == before[k];
            assert(found[j] == all[k]);
        } else {
            assert(found[found.len() - 1] == all[k]);
        }
    }
    if i < short.len() {
        assert(short[i] == found[i]);
        let k = choose|k: int|
            0 <= k < before.len() && (#[trigger] before[k]).fingerprint == short[i].fingerprint;
        assert(all[k].fingerprint == found[i].fingerprint);
    } else {
        assert(all.last().fingerprint == found[i].fingerprint);
        assert(all[all.len() - 1].fingerprint == found[i].fingerprint);
    }
    assert forall|k: int| 0 < k < all.len() implies (#[trigger] all[k]).fingerprint != all[k
        - 1].fingerprint by {
        assert(all[k - 1] == before[k - 1]);
        if k < before.len() {
            assert(all[k] == before[k]);
        }
    }
}

/// A handle whose file is not there yet is written, secured, linked and so saved; one that is
/// there with the same key is kept; and one with another key is refused.
pub proof fn handles_are_saved()
    ensures
        SaveHandle::Look.after(false).after(true).after(true).after(true).after(true)
            == SaveHandle::Saved,
        SaveHandle::Look.after(true).after(true).after(true) == SaveHandle::Saved,
        SaveHandle::Look.after(true).after(false) == SaveHandle::Failed,
        SaveHandle::Look.after(false).after(true).after(true).after(false).after(true).after(
            true,
        ).after(true) == SaveHandle::Saved,
        SaveHandle::Look.after(false).after(false).after(true) == SaveHandle::Failed,
{
}

/// The credentials that can be recovered are those with the flag of a resident key.
pub proof fn resident_flags_decide(keys: Seq<FidoKey>, i: int)
    requires
        0 <= i < keys.len(),
    ensures
        resident_handles(keys).len() == keys.len(),
        keys[i].security.flags & 0x20u8 != 0 ==> resident_handles(keys)[i] == Some(
            keys[i].security.handle@,
        ),
        keys[i].security.flags & 0x20u8 == 0 ==> resident_handles(keys)[i] is None,
{
}

} // verus!
