//! Resident SSH credentials: reading the key out of an attestation, recovering it from two
//! assertions, and judging what the platform answered.
use vstd::prelude::*;
use vstd::slice::slice_subrange;

use crate::fido::{append_bytes, contents, FidoError};
use crate::id::{uuid_text, Id};
verus! {

/// The COSE number of ECDSA on P-256 with SHA-256.
pub const COSE_ES256: i128 = -7;

/// The COSE labels of the algorithm and of the two coordinates.
pub const COSE_ALGORITHM: i128 = 3;

pub const COSE_X: i128 = -2;

pub const COSE_Y: i128 = -3;

/// Relying party hash, flags and signature counter.
pub const PREFIX_LENGTH: usize = 37;

/// Identifier of the authenticator model.
pub const AAGUID_LENGTH: usize = 16;

/// One entry of a CBOR map: its key and its value where they are numbers, and the value where it
/// is a byte string.
#[derive(Debug)]
pub struct CoseField {
    pub key: Option<i128>,
    pub integer: Option<i128>,
    pub bytes: Option<Vec<u8>>,
}

/// The bytes of an optional list.
pub open spec fn optional_bytes(value: Option<Vec<u8>>) -> Option<Seq<u8>> {
    match value {
        Some(bytes) => Some(bytes@),
        None => None,
    }
}

/// The entries as plain values.
pub open spec fn field_values(fields: Seq<CoseField>) -> Seq<
    (Option<i128>, Option<i128>, Option<Seq<u8>>),
> {
    Seq::new(
        fields.len(),
        |i: int| (fields[i].key, fields[i].integer, optional_bytes(fields[i].bytes)),
    )
}

/// A decoded value: the entries of a map, nothing for any other value, or why it is not CBOR.
pub open spec fn decoded(value: Result<Option<Vec<CoseField>>, String>) -> Result<
    Option<Seq<(Option<i128>, Option<i128>, Option<Seq<u8>>)>>,
    Seq<char>,
> {
    match value {
        Ok(Some(fields)) => Ok(Some(field_values(fields@))),
        Ok(None) => Ok(None),
        Err(text) => Err(text@),
    }
}

/// What `ciborium::from_reader` reads from bytes: the entries of a map, another value, or an
/// error by its text.
pub uninterp spec fn decoded_cbor(bytes: Seq<u8>) -> Result<
    Option<Seq<(Option<i128>, Option<i128>, Option<Seq<u8>>)>>,
    Seq<char>,
>;

/// Decodes one value with `ciborium::from_reader`; the outcome depends on the bytes alone. Of a
/// map every entry is kept, in order, and of keys and values the numbers and byte strings.
#[verifier::external_body]
fn decode_cbor(bytes: &[u8]) -> (r: Result<Option<Vec<CoseField>>, String>)
    ensures
        decoded(r) == decoded_cbor(bytes@),
{
    let value: ciborium::Value = ciborium::from_reader(bytes).map_err(|error| error.to_string())?;
    let number = |item: &ciborium::Value| item.as_integer().map(i128::from);
    Ok(
        value.as_map().map(
            |fields|
                fields.iter().map(
                    |(key, item)|
                        CoseField {
                            key: number(key),
                            integer: number(item),
                            bytes: item.as_bytes().cloned(),
                        },
                ).collect(),
        ),
    )
}

/// The last number stored under a key.
pub open spec fn last_integer(
    fields: Seq<(Option<i128>, Option<i128>, Option<Seq<u8>>)>,
    key: i128,
) -> Option<i128>
    decreases fields.len(),
{
    if fields.len() == 0 {
        None
    } else if fields.last().0 == Some(key) && fields.last().1 is Some {
        fields.last().1
    } else {
        last_integer(fields.drop_last(), key)
    }
}

/// The last byte string stored under a key.
pub open spec fn last_bytes(
    fields: Seq<(Option<i128>, Option<i128>, Option<Seq<u8>>)>,
    key: i128,
) -> Option<Seq<u8>>
    decreases fields.len(),
{
    if fields.len() == 0 {
        None
    } else if fields.last().0 == Some(key) && fields.last().2 is Some {
        fields.last().2
    } else {
        last_bytes(fields.drop_last(), key)
    }
}

/// What a decoded COSE key comes to: an uncompressed point, or why it is none.
pub open spec fn cose_point(
    cose: Result<Option<Seq<(Option<i128>, Option<i128>, Option<Seq<u8>>)>>, Seq<char>>,
) -> Result<Seq<u8>, Seq<char>> {
    match cose {
        Err(text) => Err("invalid COSE public key: "@ + text),
        Ok(None) => Err("the authenticator returned a non-map COSE public key"@),
        Ok(Some(fields)) => {
            let x = last_bytes(fields, COSE_X);
            let y = last_bytes(fields, COSE_Y);
            if last_integer(fields, COSE_ALGORITHM) != Some(COSE_ES256) {
                Err("the hardware key did not create an ECDSA P-256 credential"@)
            } else if x is None || y is None {
                Err("the COSE public key is missing its ECDSA coordinates"@)
            } else if x->0.len() != 32 || y->0.len() != 32 {
                Err("the COSE public key has invalid ECDSA coordinates"@)
            } else {
                Ok(seq![4u8] + x->0 + y->0)
            }
        },
    }
}

fn integer_under(fields: &Vec<CoseField>, key: i128) -> (r: Option<i128>)
    ensures
        r == last_integer(field_values(fields@), key),
{
    let ghost all = field_values(fields@);
    let mut left: usize = fields.len();
    assert(all.take(fields@.len() as int) =~= all);
    while left > 0
        invariant
            left <= fields@.len(),
            all == field_values(fields@),
            last_integer(all.take(left as int), key) == last_integer(all, key),
        decreases left,
    {
        assert(all.take(left as int).drop_last() =~= all.take(left - 1));
        left = left - 1;
        if let (Some(found), Some(value)) = (fields[left].key, fields[left].integer) {
            if found == key {
                return Some(value);
            }
        }
    }
    None
}

fn bytes_under(fields: &Vec<CoseField>, key: i128) -> (r: Option<&Vec<u8>>)
    ensures
        match r {
            Some(bytes) => last_bytes(field_values(fields@), key) == Some(bytes@),
            None => last_bytes(field_values(fields@), key) is None,
        },
{
    let ghost all = field_values(fields@);
    let mut left: usize = fields.len();
    assert(all.take(fields@.len() as int) =~= all);
    while left > 0
        invariant
            left <= fields@.len(),
            all == field_values(fields@),
            last_bytes(all.take(left as int), key) == last_bytes(all, key),
        decreases left,
    {
        assert(all.take(left as int).drop_last() =~= all.take(left - 1));
        left = left - 1;
        if let (Some(found), Some(value)) = (fields[left].key, &fields[left].bytes) {
            if found == key {
                return Some(value);
            }
        }
    }
    None
}

fn recovery_error(text: &str) -> (r: FidoError)
    ensures
        r matches FidoError::WindowsRecovery(reason) && reason@ == text@,
{
    FidoError::WindowsRecovery(text.to_owned())
}

/// The outcome is this failure.
pub open spec fn recovery_fails<T>(outcome: Result<T, FidoError>, text: Seq<char>) -> bool {
    outcome matches Err(FidoError::WindowsRecovery(reason)) && reason@ == text
}

/// The point of a decoded COSE key, as an uncompressed SEC 1 encoding.
pub fn public_key_from_cose(cose: Result<Option<Vec<CoseField>>, String>) -> (r: Result<
    Vec<u8>,
    FidoError,
>)
    ensures
        match cose_point(decoded(cose)) {
            Ok(point) => r matches Ok(key) && key@ == point,
            Err(text) => recovery_fails(r, text),
        },
{
    let fields = match cose {
        Err(text) => {
            let mut reason = "invalid COSE public key: ".to_owned();
            reason.append(text.as_str());
            return Err(FidoError::WindowsRecovery(reason));
        },
        Ok(None) => {
            return Err(recovery_error("the authenticator returned a non-map COSE public key"));
        },
        Ok(Some(fields)) => fields,
    };
    let algorithm_ok = match integer_under(&fields, COSE_ALGORITHM) {
        Some(algorithm) => algorithm == COSE_ES256,
        None => false,
    };
    if !algorithm_ok {
        return Err(recovery_error("the hardware key did not create an ECDSA P-256 credential"));
    }
    let (x, y) = match (bytes_under(&fields, COSE_X), bytes_under(&fields, COSE_Y)) {
        (Some(x), Some(y)) => (x, y),
        _ => {
            return Err(recovery_error("the COSE public key is missing its ECDSA coordinates"));
        },
    };
    if x.len() != 32 || y.len() != 32 {
        return Err(recovery_error("the COSE public key has invalid ECDSA coordinates"));
    }
    let mut key: Vec<u8> = Vec::new();
    key.push(4);
    append_bytes(&mut key, x.as_slice());
    append_bytes(&mut key, y.as_slice());
    assert(key@ =~= seq![4u8] + x@ + y@);
    Ok(key)
}

/// The data carries a credential: it is long enough for the fixed parts, and the flag is set.
pub open spec fn carries_credential(data: Seq<u8>) -> bool {
    data.len() >= PREFIX_LENGTH + AAGUID_LENGTH + 2 && data[32] & 0x40 != 0
}

/// Where the credential ends and the COSE key begins.
pub open spec fn cose_offset(data: Seq<u8>) -> int {
    55 + data[53] * 0x100 + data[54]
}

/// The credential in the data.
pub open spec fn credential_of(data: Seq<u8>) -> Seq<u8> {
    data.subrange(55, cose_offset(data))
}

/// Where the credential and its key stand in the data of an authenticator.
pub fn split_attested_data(authenticator_data: &[u8]) -> (r: Result<(Vec<u8>, usize), FidoError>)
    ensures
        if !carries_credential(authenticator_data@) {
            recovery_fails(
                r,
                "the authenticator did not return an attested credential public key"@,
            )
        } else if cose_offset(authenticator_data@) >= authenticator_data@.len() {
            recovery_fails(r, "the authenticator returned a truncated credential"@)
        } else {
            r matches Ok((credential, offset)) && credential@ == credential_of(authenticator_data@)
                && offset == cose_offset(authenticator_data@)
        },
{
    if authenticator_data.len() < PREFIX_LENGTH + AAGUID_LENGTH + 2 || authenticator_data[32] & 0x40
        == 0 {
        return Err(
            recovery_error("the authenticator did not return an attested credential public key"),
        );
    }
    let length: usize = authenticator_data[53] as usize * 0x100 + authenticator_data[54] as usize;
    let offset: usize = 55 + length;
    if offset >= authenticator_data.len() {
        return Err(recovery_error("the authenticator returned a truncated credential"));
    }
    let mut credential: Vec<u8> = Vec::new();
    append_bytes(&mut credential, slice_subrange(authenticator_data, 55, offset));
    assert(credential@ =~= credential_of(authenticator_data@));
    Ok((credential, offset))
}

/// What the COSE key in the data comes to.
pub open spec fn attested_point(data: Seq<u8>) -> Result<Seq<u8>, Seq<char>> {
    cose_point(decoded_cbor(data.skip(cose_offset(data))))
}

/// What the data of an authenticator comes to: a credential and its public key, or why not.
pub open spec fn attested(data: Seq<u8>) -> Result<(Seq<u8>, Seq<u8>), Seq<char>> {
    if !carries_credential(data) {
        Err("the authenticator did not return an attested credential public key"@)
    } else if cose_offset(data) >= data.len() {
        Err("the authenticator returned a truncated credential"@)
    } else {
        match attested_point(data) {
            Ok(key) => Ok((credential_of(data), key)),
            Err(text) => Err(text),
        }
    }
}

/// The credential and its public key from the data that an authenticator returns for a new
/// credential.
pub fn parse_attested_ecdsa_key(authenticator_data: &[u8]) -> (r: Result<
    (Vec<u8>, Vec<u8>),
    FidoError,
>)
    ensures
        match attested(authenticator_data@) {
            Ok(found) => r matches Ok((credential, key)) && credential@ == found.0 && key@
                == found.1,
            Err(text) => recovery_fails(r, text),
        },
{
    let (credential, offset) = match split_attested_data(authenticator_data) {
        Ok(found) => found,
        Err(error) => {
            return Err(error);
        },
    };
    let encoded = slice_subrange(authenticator_data, offset, authenticator_data.len());
    let cose = decode_cbor(encoded);
    proof {
        assert(encoded@ =~= authenticator_data@.skip(cose_offset(authenticator_data@)));
    }
    match public_key_from_cose(cose) {
        Ok(key) => Ok((credential, key)),
        Err(error) => Err(error),
    }
}

/// What `sha2::Sha256::digest` makes of bytes.
pub uninterp spec fn sha256_of(bytes: Seq<u8>) -> Seq<u8>;

/// Hashes bytes with `sha2::Sha256::digest`: 32 bytes that depend on the input alone.
#[verifier::external_body]
pub(crate) fn sha256(bytes: &[u8]) -> (r: Vec<u8>)
    ensures
        r@ == sha256_of(bytes@),
        r@.len() == 32,
{
    <sha2::Sha256 as sha2::Digest>::digest(bytes).to_vec()
}

/// Whether `p256::ecdsa::Signature::from_der` accepts bytes as a signature.
pub uninterp spec fn der_signature(bytes: Seq<u8>) -> bool;

/// Tests bytes with `p256::ecdsa::Signature::from_der`; the outcome depends on the bytes alone.
#[verifier::external_body]
fn is_der_signature(bytes: &[u8]) -> (r: bool)
    ensures
        r == der_signature(bytes@),
{
    p256::ecdsa::Signature::from_der(bytes).is_ok()
}

/// The uncompressed point that `p256::ecdsa::VerifyingKey::recover_from_msg` finds for a message,
/// a DER signature and a recovery identifier.
pub uninterp spec fn recovered_key(
    message: Seq<u8>,
    signature: Seq<u8>,
    y_is_odd: bool,
    x_is_reduced: bool,
) -> Option<Seq<u8>>;

/// Recovers a key with `p256::ecdsa::VerifyingKey::recover_from_msg`, none where the signature or
/// the recovery fails; the outcome depends on the arguments alone.
#[verifier::external_body]
fn recover_key(message: &[u8], signature: &[u8], y_is_odd: bool, x_is_reduced: bool) -> (r: Option<
    Vec<u8>,
>)
    ensures
        optional_bytes(r) == recovered_key(message@, signature@, y_is_odd, x_is_reduced),
{
    let parsed = p256::ecdsa::Signature::from_der(signature).ok()?;
    let recovery_id = p256::ecdsa::RecoveryId::new(y_is_odd, x_is_reduced);
    let key = p256::ecdsa::VerifyingKey::recover_from_msg(message, &parsed, recovery_id).ok()?;
    Some(key.to_sec1_point(false).as_bytes().to_vec())
}

/// What an authenticator returned for a challenge.
#[derive(Debug)]
pub struct WindowsAssertion {
    pub credential_id: Vec<u8>,
    pub authenticator_data: Vec<u8>,
    pub signature: Vec<u8>,
    pub client_data: Vec<u8>,
}

/// The bytes that the authenticator signed.
pub open spec fn signed_data(assertion: WindowsAssertion) -> Seq<u8> {
    assertion.authenticator_data@ + sha256_of(assertion.client_data@)
}

/// The four keys that a signature can stem from, where they exist.
pub open spec fn possible_keys(assertion: WindowsAssertion) -> Seq<Option<Seq<u8>>> {
    seq![
        recovered_key(signed_data(assertion), assertion.signature@, false, false),
        recovered_key(signed_data(assertion), assertion.signature@, false, true),
        recovered_key(signed_data(assertion), assertion.signature@, true, false),
        recovered_key(signed_data(assertion), assertion.signature@, true, true),
    ]
}

/// The keys that exist, each once, in order.
pub open spec fn distinct(keys: Seq<Option<Seq<u8>>>) -> Seq<Seq<u8>>
    decreases keys.len(),
{
    if keys.len() == 0 {
        Seq::empty()
    } else {
        let before = distinct(keys.drop_last());
        match keys.last() {
            Some(key) => if before.contains(key) {
                before
            } else {
                before.push(key)
            },
            None => before,
        }
    }
}

/// The bytes of each entry of a list.
pub open spec fn optional_contents(list: Seq<Option<Vec<u8>>>) -> Seq<Option<Seq<u8>>> {
    Seq::new(list.len(), |i: int| optional_bytes(list[i]))
}

pub fn same_bytes(a: &[u8], b: &[u8]) -> (r: bool)
    ensures
        r == (a@ == b@),
{
    if a.len() != b.len() {
        return false;
    }
    let mut i: usize = 0;
    while i < a.len()
        invariant
            i <= a@.len(),
            a@.len() == b@.len(),
            forall|j: int| 0 <= j < i ==> a@[j] == b@[j],
        decreases a@.len() - i,
    {
        if a[i] != b[i] {
            return false;
        }
        i = i + 1;
    }
    assert(a@ =~= b@);
    true
}

fn holds_bytes(list: &Vec<Vec<u8>>, wanted: &[u8]) -> (r: bool)
    ensures
        r == contents(list@).contains(wanted@),
{
    let mut i: usize = 0;
    while i < list.len()
        invariant
            i <= list@.len(),
            forall|j: int| 0 <= j < i ==> contents(list@)[j] != wanted@,
        decreases list@.len() - i,
    {
        if same_bytes(list[i].as_slice(), wanted) {
            assert(contents(list@)[i as int] == wanted@);
            return true;
        }
        i = i + 1;
    }
    false
}

/// The keys that exist, each once.
pub fn distinct_keys(keys: Vec<Option<Vec<u8>>>) -> (r: Vec<Vec<u8>>)
    ensures
        contents(r@) == distinct(optional_contents(keys@)),
{
    let mut found: Vec<Vec<u8>> = Vec::new();
    let mut i: usize = 0;
    let ghost all = optional_contents(keys@);
    assert(contents(found@) =~= distinct(all.take(0)));
    while i < keys.len()
        invariant
            i <= keys@.len(),
            all == optional_contents(keys@),
            contents(found@) == distinct(all.take(i as int)),
        decreases keys@.len() - i,
    {
        assert(all.take(i + 1).drop_last() =~= all.take(i as int));
        assert(all.take(i + 1).last() == all[i as int]);
        if let Some(key) = &keys[i] {
            if !holds_bytes(&found, key.as_slice()) {
                let ghost before = contents(found@);
                let mut copy: Vec<u8> = Vec::new();
                append_bytes(&mut copy, key.as_slice());
                assert(copy@ =~= key@);
                found.push(copy);
                assert(contents(found@) =~= before.push(key@));
            }
        }
        i = i + 1;
    }
    assert(all.take(keys@.len() as int) =~= all);
    found
}

/// The public keys under which the signature of an assertion is valid.
pub fn recover_ecdsa_public_keys(assertion: &WindowsAssertion) -> (r: Result<
    Vec<Vec<u8>>,
    FidoError,
>)
    ensures
        match allowed_keys(*assertion) {
            Ok(keys) => r matches Ok(found) && contents(found@) == keys,
            Err(text) => recovery_fails(r, text),
        },
{
    if !is_der_signature(assertion.signature.as_slice()) {
        return Err(
            recovery_error("the selected credential is not a recoverable ECDSA-SK credential"),
        );
    }
    let hash = sha256(assertion.client_data.as_slice());
    let mut signed: Vec<u8> = Vec::new();
    append_bytes(&mut signed, assertion.authenticator_data.as_slice());
    append_bytes(&mut signed, hash.as_slice());
    assert(signed@ =~= signed_data(*assertion));
    let message = signed.as_slice();
    let signature = assertion.signature.as_slice();
    let mut possible: Vec<Option<Vec<u8>>> = Vec::new();
    possible.push(recover_key(message, signature, false, false));
    possible.push(recover_key(message, signature, false, true));
    possible.push(recover_key(message, signature, true, false));
    possible.push(recover_key(message, signature, true, true));
    assert(optional_contents(possible@) =~= possible_keys(*assertion));
    let keys = distinct_keys(possible);
    if keys.len() == 0 {
        assert(contents(keys@).len() == 0);
        return Err(
            recovery_error("the ECDSA public key could not be recovered from the assertion"),
        );
    }
    assert(contents(keys@).len() > 0);
    Ok(keys)
}

/// The keys of one list that are in another.
pub open spec fn common(first: Seq<Seq<u8>>, second: Seq<Seq<u8>>) -> Seq<Seq<u8>>
    decreases first.len(),
{
    if first.len() == 0 {
        Seq::empty()
    } else if second.contains(first.last()) {
        common(first.drop_last(), second).push(first.last())
    } else {
        common(first.drop_last(), second)
    }
}

/// The one key that both assertions allow.
pub fn only_common_key(first: &Vec<Vec<u8>>, second: &Vec<Vec<u8>>) -> (r: Result<
    Vec<u8>,
    FidoError,
>)
    ensures
        ({
            let shared = common(contents(first@), contents(second@));
            if shared.len() == 1 {
                r matches Ok(key) && key@ == shared[0]
            } else {
                recovery_fails(r, "the ECDSA public key could not be identified uniquely"@)
            }
        }),
{
    let mut found: Vec<usize> = Vec::new();
    let mut i: usize = 0;
    let ghost left = contents(first@);
    let ghost right = contents(second@);
    assert(common(left.take(0), right) =~= Seq::empty());
    while i < first.len()
        invariant
            i <= first@.len(),
            left == contents(first@),
            right == contents(second@),
            found@.len() == common(left.take(i as int), right).len(),
            forall|k: int|
                0 <= k < found@.len() ==> (#[trigger] found@[k]) < first@.len()
                    && left[found@[k] as int] == common(left.take(i as int), right)[k],
        decreases first@.len() - i,
    {
        assert(left.take(i + 1).drop_last() =~= left.take(i as int));
        assert(left.take(i + 1).last() == left[i as int]);
        let ghost before = common(left.take(i as int), right);
        if holds_bytes(second, first[i].as_slice()) {
            found.push(i);
            assert(common(left.take(i + 1), right) == before.push(left[i as int]));
        } else {
            assert(common(left.take(i + 1), right) == before);
        }
        i = i + 1;
    }
    assert(left.take(first@.len() as int) =~= left);
    if found.len() != 1 {
        return Err(recovery_error("the ECDSA public key could not be identified uniquely"));
    }
    let mut key: Vec<u8> = Vec::new();
    let at: usize = found[0];
    append_bytes(&mut key, first[at].as_slice());
    assert(key@ =~= left[at as int]);
    Ok(key)
}

/// The keys that an assertion allows, or why there are none.
pub open spec fn allowed_keys(assertion: WindowsAssertion) -> Result<Seq<Seq<u8>>, Seq<char>> {
    if !der_signature(assertion.signature@) {
        Err("the selected credential is not a recoverable ECDSA-SK credential"@)
    } else if distinct(possible_keys(assertion)).len() == 0 {
        Err("the ECDSA public key could not be recovered from the assertion"@)
    } else {
        Ok(distinct(possible_keys(assertion)))
    }
}

/// The credential and the key that two assertions agree on, or why they do not.
pub open spec fn agreed_key(first: WindowsAssertion, second: WindowsAssertion) -> Result<
    (Seq<u8>, Seq<u8>),
    Seq<char>,
> {
    if first.credential_id@ != second.credential_id@ {
        Err("Windows returned different credentials during verification"@)
    } else {
        match (allowed_keys(first), allowed_keys(second)) {
            (Err(text), _) => Err(text),
            (_, Err(text)) => Err(text),
            (Ok(left), Ok(right)) => if common(left, right).len() == 1 {
                Ok((first.credential_id@, common(left, right)[0]))
            } else {
                Err("the ECDSA public key could not be identified uniquely"@)
            },
        }
    }
}

/// Recovers the resident credential and its public key from two assertions.
pub fn recover_resident_key(first: WindowsAssertion, second: WindowsAssertion) -> (r: Result<
    (Vec<u8>, Vec<u8>),
    FidoError,
>)
    ensures
        match agreed_key(first, second) {
            Ok(found) => r matches Ok((credential, key)) && credential@ == found.0 && key@
                == found.1,
            Err(text) => recovery_fails(r, text),
        },
{
    if !same_bytes(first.credential_id.as_slice(), second.credential_id.as_slice()) {
        return Err(recovery_error("Windows returned different credentials during verification"));
    }
    let from_first = match recover_ecdsa_public_keys(&first) {
        Ok(keys) => keys,
        Err(error) => {
            return Err(error);
        },
    };
    let from_second = match recover_ecdsa_public_keys(&second) {
        Ok(keys) => keys,
        Err(error) => {
            return Err(error);
        },
    };
    match only_common_key(&from_first, &from_second) {
        Ok(key) => Ok((first.credential_id, key)),
        Err(error) => Err(error),
    }
}

/// A text in UTF-16, one or two units for each character.
pub open spec fn utf16(text: Seq<char>) -> Seq<u16>
    decreases text.len(),
{
    if text.len() == 0 {
        Seq::empty()
    } else {
        let n = text.last() as u32;
        utf16(text.drop_last()) + if n < 0x10000 {
            seq![n as u16]
        } else {
            seq![
                (0xd800 + (n - 0x10000) / 0x400) as u16,
                (0xdc00 + (n - 0x10000) % 0x400) as u16,
            ]
        }
    }
}

/// A text in UTF-16 with a zero at its end.
pub fn wide_string(value: &str) -> (r: Vec<u16>)
    ensures
        r@ == utf16(value@).push(0),
{
    let mut out: Vec<u16> = Vec::new();
    assert(out@ =~= utf16(value@.take(0)));
    for c in iter: value.chars()
        invariant
            iter.seq() == value@,
            out@ == utf16(value@.take(iter.index())),
    {
        let ghost more = value@.take(iter.index() + 1);
        assert(more.drop_last() =~= value@.take(iter.index()));
        assert(more.last() == c);
        let n: u32 = c as u32;
        if n < 0x10000 {
            out.push(n as u16);
        } else {
            out.push((0xd800 + (n - 0x10000) / 0x400) as u16);
            out.push((0xdc00 + (n - 0x10000) % 0x400) as u16);
        }
        assert(out@ =~= utf16(more));
    }
    assert(value@.take(value@.len() as int) =~= value@);
    out.push(0);
    out
}

/// A hexadecimal digit in upper case.
pub open spec fn upper_hex(d: int) -> char {
    if d < 10 {
        ((0x30 + d) as u32) as char
    } else {
        ((0x37 + d) as u32) as char
    }
}

/// A number as hexadecimal digits in upper case, this many of them.
pub open spec fn hex_digits(n: int, digits: nat) -> Seq<char>
    decreases digits,
{
    if digits == 0 {
        Seq::empty()
    } else {
        hex_digits(n / 16, (digits - 1) as nat).push(upper_hex(n % 16))
    }
}

fn hex_text(n: u32, digits: u8) -> (r: String)
    ensures
        r@ == hex_digits(n as int, digits as nat),
    decreases digits,
{
    if digits == 0 {
        let r = String::new();
        assert(r@ =~= hex_digits(n as int, 0));
        r
    } else {
        let mut r = hex_text(n / 16, digits - 1);
        let d: u8 = (n % 16) as u8;
        r.push(
            if d < 10 {
                (0x30 + d) as char
            } else {
                (0x37 + d) as char
            },
        );
        r
    }
}

/// The text of a platform error: its name, where it has one, and its code.
pub open spec fn platform_error(name: Option<Seq<char>>, code: u32) -> Seq<char> {
    match name {
        Some(name) => name + " (0x"@ + hex_digits(code as int, 8) + ")"@,
        None => "WebAuthn error 0x"@ + hex_digits(code as int, 8),
    }
}

/// An optional text.
pub open spec fn optional_str(value: Option<&str>) -> Option<Seq<char>> {
    match value {
        Some(text) => Some(text@),
        None => None,
    }
}

pub fn windows_webauthn_error(name: Option<&str>, code: u32) -> (r: String)
    ensures
        r@ == platform_error(optional_str(name), code),
{
    let digits = hex_text(code, 8);
    match name {
        Some(name) => {
            let mut text = name.to_owned();
            text.append(" (0x");
            text.append(digits.as_str());
            text.append(")");
            text
        },
        None => {
            let mut text = "WebAuthn error 0x".to_owned();
            text.append(digits.as_str());
            text
        },
    }
}

/// The code of an operation that the user cancelled or that took too long.
pub const CODE_CANCELLED: u32 = 0x8007_04C7;

/// The code of a credential that is on the key already.
pub const CODE_EXISTS: u32 = 0x8009_000F;

/// What the platform says of a new credential.
#[derive(Debug)]
pub struct Attestation {
    /// Whether the credential stays on the hardware key, where the platform tells.
    pub resident: Option<bool>,
    pub authenticator_data: Vec<u8>,
    pub credential_id: Vec<u8>,
}

/// Judges the answer to a request for a new resident credential. The attested credential must be
/// the one that the platform names, and must not be known to stay off the key.
pub fn enrolled_key(
    code: u32,
    error_name: Option<&str>,
    attestation: Option<Attestation>,
) -> (r: Result<(Vec<u8>, Vec<u8>), FidoError>)
    ensures
        if code == CODE_CANCELLED {
            r matches Err(error) && error is WindowsEnrollmentCancelled
        } else if code == CODE_EXISTS {
            r matches Err(error) && error is RecoverableCredentialExists
        } else if code != 0 {
            recovery_fails(r, platform_error(optional_str(error_name), code))
        } else {
            match attestation {
                None => recovery_fails(r, "Windows returned an empty credential attestation"@),
                Some(found) => if found.resident == Some(false) {
                    recovery_fails(
                        r,
                        "Windows did not create a recoverable credential on the hardware key"@,
                    )
                } else {
                    match attested(found.authenticator_data@) {
                        Err(text) => recovery_fails(r, text),
                        Ok(parsed) => if parsed.0 == found.credential_id@ {
                            r matches Ok((credential, key)) && credential@ == parsed.0 && key@
                                == parsed.1
                        } else {
                            recovery_fails(
                                r,
                                "Windows returned inconsistent credential identifiers"@,
                            )
                        },
                    }
                },
            }
        },
{
    if code == CODE_CANCELLED {
        return Err(FidoError::WindowsEnrollmentCancelled);
    }
    if code == CODE_EXISTS {
        return Err(FidoError::RecoverableCredentialExists);
    }
    if code != 0 {
        return Err(FidoError::WindowsRecovery(windows_webauthn_error(error_name, code)));
    }
    let found = match attestation {
        Some(found) => found,
        None => {
            return Err(recovery_error("Windows returned an empty credential attestation"));
        },
    };
    if let Some(resident) = found.resident {
        if !resident {
            return Err(
                recovery_error(
                    "Windows did not create a recoverable credential on the hardware key",
                ),
            );
        }
    }
    let (credential, key) = match parse_attested_ecdsa_key(found.authenticator_data.as_slice()) {
        Ok(parsed) => parsed,
        Err(error) => {
            return Err(error);
        },
    };
    if !same_bytes(credential.as_slice(), found.credential_id.as_slice()) {
        return Err(recovery_error("Windows returned inconsistent credential identifiers"));
    }
    Ok((credential, key))
}

/// Judges the answer to a request for an assertion; `prompt` tells which of the two it was.
pub fn assertion_outcome(
    code: u32,
    error_name: Option<&str>,
    assertion: Option<WindowsAssertion>,
    prompt: u8,
) -> (r: Result<WindowsAssertion, FidoError>)
    ensures
        if code == CODE_CANCELLED {
            r matches Err(FidoError::WindowsRecoveryCancelled { prompt: which }) && which == prompt
        } else if code != 0 {
            recovery_fails(r, platform_error(optional_str(error_name), code))
        } else {
            match assertion {
                Some(found) => r == Ok::<WindowsAssertion, FidoError>(found),
                None => recovery_fails(r, "Windows returned an empty assertion"@),
            }
        },
{
    if code == CODE_CANCELLED {
        return Err(FidoError::WindowsRecoveryCancelled { prompt });
    }
    if code != 0 {
        return Err(FidoError::WindowsRecovery(windows_webauthn_error(error_name, code)));
    }
    match assertion {
        Some(found) => Ok(found),
        None => Err(recovery_error("Windows returned an empty assertion")),
    }
}

/// The seed of the user handle under which this application's resident credential is kept.
pub const MANAGED_USER_SEED: &'static str = "codex-hosts:ssh:resident:v1";

/// The stable user handle: the hash of the seed.
pub fn managed_user_id() -> (r: Vec<u8>)
    ensures
        r@ == sha256_of(vstd::utf8::encode_utf8(MANAGED_USER_SEED@)),
        r@.len() == 32,
{
    sha256(MANAGED_USER_SEED.as_bytes())
}

/// The name that the platform shows for the credential.
pub fn display_name(user_name: &str) -> (r: String)
    ensures
        r@ == if user_name@.len() == 0 {
            "codex-hosts"@
        } else {
            user_name@
        },
{
    if user_name.is_empty() {
        "codex-hosts".to_owned()
    } else {
        user_name.to_owned()
    }
}

/// The hexadecimal digits of an identifier, without hyphens.
pub open spec fn simple_text(value: u128) -> Seq<char> {
    let t = uuid_text(value);
    t.subrange(0, 8) + t.subrange(9, 13) + t.subrange(14, 18) + t.subrange(19, 23) + t.subrange(
        24,
        36,
    )
}

/// The client data that a new credential is bound to.
pub open spec fn create_client_data(challenge: u128) -> Seq<char> {
    "{\"type\":\"webauthn.create\",\"challenge\":\""@ + simple_text(challenge)
        + "\",\"origin\":\"https://ssh.invalid\"}"@
}

pub fn enrollment_client_data(challenge: Id) -> (r: String)
    ensures
        r@ == create_client_data(challenge.value),
{
    let hyphenated = challenge.text();
    let t = hyphenated.as_str();
    let mut text = "{\"type\":\"webauthn.create\",\"challenge\":\"".to_owned();
    text.append(t.substring_char(0, 8));
    text.append(t.substring_char(9, 13));
    text.append(t.substring_char(14, 18));
    text.append(t.substring_char(19, 23));
    text.append(t.substring_char(24, 36));
    text.append("\",\"origin\":\"https://ssh.invalid\"}");
    assert(text@ =~= create_client_data(challenge.value));
    text
}

/// A point that is accepted is that of an ECDSA key: it begins with a four and holds the two
/// coordinates of thirty-two bytes, the one under -2 before the one under -3.
pub proof fn points_hold_both_coordinates(
    fields: Seq<(Option<i128>, Option<i128>, Option<Seq<u8>>)>,
)
    ensures
        cose_point(Ok(Some(fields))) matches Ok(point) ==> {
            &&& last_integer(fields, 3) == Some(-7i128)
            &&& point.len() == 65
            &&& point[0] == 4
            &&& last_bytes(fields, -2i128) == Some(point.subrange(1, 33))
            &&& last_bytes(fields, -3i128) == Some(point.subrange(33, 65))
        },
        last_integer(fields, 3) == Some(-7i128) && last_bytes(fields, -2i128) is Some && last_bytes(
            fields,
            -3i128,
        ) is Some && last_bytes(fields, -2i128)->0.len() == 32 && last_bytes(fields, -3i128)->0.len() == 32
            ==> cose_point(Ok(Some(fields))) is Ok,
        cose_point(Ok(None)) is Err,
{
    let x = last_bytes(fields, COSE_X);
    let y = last_bytes(fields, COSE_Y);
    if let Ok(point) = cose_point(Ok(Some(fields))) {
        assert(point == seq![4u8] + x->0 + y->0);
        assert(point.subrange(1, 33) =~= x->0);
        assert(point.subrange(33, 65) =~= y->0);
    }
}

/// Of several values under one key the last one counts, and other keys do not matter.
pub proof fn the_last_value_counts(
    fields: Seq<(Option<i128>, Option<i128>, Option<Seq<u8>>)>,
    key: i128,
    other: i128,
    number: i128,
    bytes: Seq<u8>,
)
    requires
        other != key,
    ensures
        last_integer(fields.push((Some(key), Some(number), None)), key) == Some(number),
        last_bytes(fields.push((Some(key), None, Some(bytes))), key) == Some(bytes),
        last_integer(fields.push((Some(other), Some(number), None)), key) == last_integer(
            fields,
            key,
        ),
        last_bytes(fields.push((Some(other), None, Some(bytes))), key) == last_bytes(fields, key),
{
    assert(fields.push((Some(other), Some(number), None)).drop_last() =~= fields);
    assert(fields.push((Some(other), None, Some(bytes))).drop_last() =~= fields);
}

/// The credential in the data of an authenticator is as long as the two bytes in front of it say,
/// and the key is what follows.
pub proof fn credentials_are_cut_out_whole(
    data: Seq<u8>,
    front: Seq<u8>,
    credential: Seq<u8>,
    cose: Seq<u8>,
)
    requires
        front.len() == 55,
        data == front + credential + cose,
        front[32] & 0x40u8 != 0,
        front[53] * 256 + front[54] == credential.len(),
        cose.len() > 0,
    ensures
        cose_point(decoded_cbor(cose)) matches Ok(point) ==> attested(data) == Ok::<
            (Seq<u8>, Seq<u8>),
            Seq<char>,
        >((credential, point)),
        cose_point(decoded_cbor(cose)) is Err ==> attested(data) is Err,
{
    assert(data[32] == front[32] && data[53] == front[53] && data[54] == front[54]);
    assert(cose_offset(data) == 55 + credential.len());
    assert(credential_of(data) =~= credential);
    assert(data.skip(cose_offset(data)) =~= cose);
}

/// Data without the flag of a credential, or too short to hold one, is refused.
pub proof fn data_without_credentials_is_refused(data: Seq<u8>)
    ensures
        data.len() < 55 ==> attested(data) is Err,
        data.len() >= 55 && data[32] & 0x40u8 == 0 ==> attested(data) is Err,
{
}

/// Each key that is there is kept, once.
pub proof fn keys_are_kept_once(keys: Seq<Option<Seq<u8>>>, key: Seq<u8>)
    ensures
        distinct(keys).contains(key) <==> keys.contains(Some(key)),
        distinct(keys).no_duplicates(),
    decreases keys.len(),
{
    if keys.len() > 0 {
        let short = keys.drop_last();
        let before = distinct(short);
        let all = distinct(keys);
        keys_are_kept_once(short, key);
        if keys.contains(Some(key)) {
            let i = choose|i: int| 0 <= i < keys.len() && keys[i] == Some(key);
            if i < short.len() {
                assert(short[i] == Some(key));
                let k = choose|k: int| 0 <= k < before.len() && before[k] == key;
                assert(all[k] == key);
            } else {
                if !before.contains(key) {
                    assert(all[before.len() as int] == key);
                }
            }
        }
        if all.contains(key) {
            let k = choose|k: int| 0 <= k < all.len() && all[k] == key;
            if k < before.len() {
                assert(before[k] == key);
                let i = choose|i: int| 0 <= i < short.len() && short[i] == Some(key);
                assert(keys[i] == Some(key));
            } else {
                assert(keys[keys.len() - 1] == Some(key));
            }
        }
    }
}

/// The keys that two lists share are those that are in both.
pub proof fn shared_keys_are_in_both(first: Seq<Seq<u8>>, second: Seq<Seq<u8>>, key: Seq<u8>)
    ensures
        common(first, second).contains(key) <==> first.contains(key) && second.contains(key),
    decreases first.len(),
{
    if first.len() > 0 {
        let short = first.drop_last();
        let before = common(short, second);
        let all = common(first, second);
        shared_keys_are_in_both(short, second, key);
        if first.contains(key) && second.contains(key) {
            let i = choose|i: int| 0 <= i < first.len() && first[i] == key;
            if i < short.len() {
                assert(short[i] == key);
                let k = choose|k: int| 0 <= k < before.len() && before[k] == key;
                assert(all[k] == key);
            } else {
                assert(all[before.len() as int] == key);
            }
        }
        if all.contains(key) {
            let k = choose|k: int| 0 <= k < all.len() && all[k] == key;
            if k < before.len() {
                assert(before[k] == key);
                let i = choose|i: int| 0 <= i < short.len() && short[i] == key;
                assert(first[i] == key);
            } else {
                assert(first[first.len() - 1] == key);
            }
        }
    }
}

/// A recovered key stems from both signatures, over the data that was signed, and is the only one
/// that does; both assertions are of one credential.
pub proof fn recovered_keys_are_agreed_on(
    first: WindowsAssertion,
    second: WindowsAssertion,
    credential: Seq<u8>,
    key: Seq<u8>,
    other: Seq<u8>,
)
    requires
        agreed_key(first, second) == Ok::<(Seq<u8>, Seq<u8>), Seq<char>>((credential, key)),
    ensures
        credential == first.credential_id@,
        credential == second.credential_id@,
        possible_keys(first).contains(Some(key)),
        possible_keys(second).contains(Some(key)),
        possible_keys(first).contains(Some(other)) && possible_keys(second).contains(Some(other))
            ==> other == key,
        possible_keys(first).len() == 4,
        possible_keys(first)[0] == recovered_key(
            first.authenticator_data@ + sha256_of(first.client_data@),
            first.signature@,
            false,
            false,
        ),
{
    let left = distinct(possible_keys(first));
    let right = distinct(possible_keys(second));
    let shared = common(left, right);
    assert(shared.contains(key)) by {
        assert(shared[0] == key);
    }
    shared_keys_are_in_both(left, right, key);
    keys_are_kept_once(possible_keys(first), key);
    keys_are_kept_once(possible_keys(second), key);
    shared_keys_are_in_both(left, right, other);
    keys_are_kept_once(possible_keys(first), other);
    keys_are_kept_once(possible_keys(second), other);
    if shared.contains(other) {
        let k = choose|k: int| 0 <= k < shared.len() && shared[k] == other;
        assert(k == 0);
    }
}

/// A character of the basic plane is one unit of UTF-16, and any other is a pair from which it can
/// be put together again.
pub proof fn characters_become_units(text: Seq<char>, c: char)
    ensures
        (c as u32) < 0x10000 ==> utf16(text.push(c)) == utf16(text).push(c as u32 as u16),
        (c as u32) >= 0x10000 ==> {
            let units = utf16(text.push(c));
            let n = utf16(text).len() as int;
            &&& units.len() == n + 2
            &&& units.take(n) == utf16(text)
            &&& 0xd800 <= units[n] < 0xdc00
            &&& 0xdc00 <= units[n + 1] < 0xe000
            &&& 0x10000 + (units[n] - 0xd800) * 0x400 + (units[n + 1] - 0xdc00) == c as u32
        },
{
    let more = text.push(c);
    let v = c as u32;
    assert(more.drop_last() =~= text);
    assert(more.last() == c);
    if v < 0x10000 {
        assert(utf16(more) =~= utf16(text).push(v as u16));
    } else {
        let units = utf16(more);
        let n = utf16(text).len() as int;
        assert(units.take(n) =~= utf16(text));
        assert(v <= 0x10ffff);
    }
}

/// A new credential is bound to the challenge: the digits of its identifier without their hyphens.
pub proof fn client_data_holds_the_challenge(challenge: u128)
    ensures
        simple_text(challenge).len() == 32,
        create_client_data(challenge) == "{\"type\":\"webauthn.create\",\"challenge\":\""@
            + simple_text(challenge) + "\",\"origin\":\"https://ssh.invalid\"}"@,
        forall|i: int|
            0 <= i < 8 ==> #[trigger] simple_text(challenge)[i] == uuid_text(challenge)[i],
        forall|i: int|
            20 <= i < 32 ==> #[trigger] simple_text(challenge)[i] == uuid_text(challenge)[i + 4],
{
}

/// A failure of the platform is told with its name, where it has one, and its code in eight
/// hexadecimal digits.
pub proof fn platform_failures_show_their_code(name: Seq<char>, code: u32)
    ensures
        name.is_prefix_of(platform_error(Some(name), code)),
        hex_digits(code as int, 8).len() == 8,
        hex_digits(code as int, 8)[7] == upper_hex(code as int % 16),
        hex_digits(code as int, 8)[0] == upper_hex(code as int / 0x1000_0000),
        hex_digits(code as int, 8).is_suffix_of(platform_error(None, code)),
{
    reveal_with_fuel(hex_digits, 9);
    let named = platform_error(Some(name), code);
    let plain = platform_error(None, code);
    let digits = hex_digits(code as int, 8);
    assert(named.take(name.len() as int) =~= name);
    assert(plain.skip(plain.len() - digits.len()) =~= digits);
}

} // verus!
