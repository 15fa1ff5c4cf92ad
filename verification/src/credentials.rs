//! Where secrets are kept, and in which order they are written and restored.
use vstd::prelude::*;

use crate::id::{uuid_text, Id};
use crate::secret::Secret;
use crate::text::optional_text;

verus! {

/// The service under which secrets are stored.
pub const SERVICE: &'static str = "Codex Hosts";

/// The service under which an earlier program stored passwords.
pub const LEGACY_SERVICE: &'static str = "Codex Remote GUI";

#[derive(Debug, Clone, Copy, PartialEq, Eq, Structural)]
pub enum CredentialKind {
    Password,
    KeyPassphrase,
}

impl CredentialKind {
    pub open spec fn suffix(self) -> Seq<char> {
        match self {
            CredentialKind::Password => "password"@,
            CredentialKind::KeyPassphrase => "key-passphrase"@,
        }
    }

    pub fn account_suffix(self) -> (r: &'static str)
        ensures
            r@ == self.suffix(),
    {
        match self {
            Self::Password => "password",
            Self::KeyPassphrase => "key-passphrase",
        }
    }
}

/// The account under which a secret of a host is stored.
pub open spec fn account(id: Id, kind: CredentialKind) -> Seq<char> {
    uuid_text(id.value) + ":"@ + kind.suffix()
}

pub fn account_name(id: Id, kind: CredentialKind) -> (r: String)
    ensures
        r@ == account(id, kind),
{
    let mut name = id.text();
    name.append(":");
    name.append(kind.account_suffix());
    name
}

/// The account under which an earlier program stored the password of a host.
pub fn legacy_account_name(id: Id) -> (r: String)
    ensures
        r@ == uuid_text(id.value),
{
    id.text()
}

/// The two secrets of a host do not share an account.
pub proof fn accounts_are_separate(id: Id)
    ensures
        account(id, CredentialKind::Password) != account(id, CredentialKind::KeyPassphrase),
{
    reveal_strlit("password");
    reveal_strlit("key-passphrase");
    reveal_strlit(":");
    assert(account(id, CredentialKind::Password).len() != account(
        id,
        CredentialKind::KeyPassphrase,
    ).len());
}

/// What looking for a secret gave.
#[derive(PartialEq, Eq)]
pub enum Lookup {
    Found(Secret),
    Missing,
    Failed(String),
}

/// What to do once a secret was looked for.
#[derive(PartialEq, Eq)]
pub enum LoadStep {
    /// This is the answer.
    Answer(Option<Secret>),
    /// Look where an earlier program stored the password.
    LookAtLegacy,
    /// Store the password in its new place, then answer with it.
    Migrate(Secret),
    Failed(String),
}

/// A password that is missing may still stand where an earlier program stored it; other secrets
/// never did.
pub fn after_lookup(kind: CredentialKind, lookup: Lookup) -> (r: LoadStep)
    ensures
        r == match lookup {
            Lookup::Found(secret) => LoadStep::Answer(Some(secret)),
            Lookup::Missing => if kind == CredentialKind::Password {
                LoadStep::LookAtLegacy
            } else {
                LoadStep::Answer(None)
            },
            Lookup::Failed(text) => LoadStep::Failed(text),
        },
{
    match lookup {
        Lookup::Found(secret) => LoadStep::Answer(Some(secret)),
        Lookup::Missing => {
            if kind == CredentialKind::Password {
                LoadStep::LookAtLegacy
            } else {
                LoadStep::Answer(None)
            }
        },
        Lookup::Failed(text) => LoadStep::Failed(text),
    }
}

/// What follows a look at the earlier place.
pub fn after_legacy_lookup(lookup: Lookup) -> (r: LoadStep)
    ensures
        r == match lookup {
            Lookup::Found(secret) => LoadStep::Migrate(secret),
            Lookup::Missing => LoadStep::Answer(None),
            Lookup::Failed(text) => LoadStep::Failed(text),
        },
{
    match lookup {
        Lookup::Found(secret) => LoadStep::Migrate(secret),
        Lookup::Missing => LoadStep::Answer(None),
        Lookup::Failed(text) => LoadStep::Failed(text),
    }
}

/// The secrets of a host as they were at some moment.
#[derive(PartialEq, Eq)]
pub struct CredentialSnapshot {
    pub password: Option<Secret>,
    pub key_passphrase: Option<Secret>,
}

/// What has to be done to an account.
#[derive(PartialEq, Eq)]
pub enum Write {
    Store { kind: CredentialKind, secret: Secret },
    Delete { kind: CredentialKind },
}

/// The writes that bring the secrets back to what they were: both, the password first. The second
/// is tried even if the first fails.
pub fn restore_plan(snapshot: CredentialSnapshot) -> (r: Vec<Write>)
    ensures
        r@.len() == 2,
        r@[0] == match snapshot.password {
            Some(secret) => Write::Store { kind: CredentialKind::Password, secret },
            None => Write::Delete { kind: CredentialKind::Password },
        },
        r@[1] == match snapshot.key_passphrase {
            Some(secret) => Write::Store { kind: CredentialKind::KeyPassphrase, secret },
            None => Write::Delete { kind: CredentialKind::KeyPassphrase },
        },
{
    let mut plan: Vec<Write> = Vec::new();
    plan.push(
        match snapshot.password {
            Some(secret) => Write::Store { kind: CredentialKind::Password, secret },
            None => Write::Delete { kind: CredentialKind::Password },
        },
    );
    plan.push(
        match snapshot.key_passphrase {
            Some(secret) => Write::Store { kind: CredentialKind::KeyPassphrase, secret },
            None => Write::Delete { kind: CredentialKind::KeyPassphrase },
        },
    );
    plan
}

/// The first error of several writes is the one that is reported.
pub open spec fn first_error(results: Seq<Option<Seq<char>>>) -> Option<Seq<char>>
    decreases results.len(),
{
    if results.len() == 0 {
        None
    } else if results[0] is Some {
        results[0]
    } else {
        first_error(results.skip(1))
    }
}

pub open spec fn errors_of(results: Seq<Option<String>>) -> Seq<Option<Seq<char>>> {
    Seq::new(results.len(), |i: int| optional_text(results[i]))
}

pub fn restore_outcome(results: &Vec<Option<String>>) -> (r: Option<String>)
    ensures
        optional_text(r) == first_error(errors_of(results@)),
{
    let ghost all = errors_of(results@);
    let mut i: usize = 0;
    assert(all.skip(0) =~= all);
    while i < results.len()
        invariant
            i <= results@.len(),
            all == errors_of(results@),
            first_error(all.skip(i as int)) == first_error(all),
        decreases results@.len() - i,
    {
        assert(all.skip(i as int)[0] == all[i as int]);
        if let Some(text) = &results[i] {
            return Some(text.clone());
        }
        assert(all.skip(i as int).skip(1) =~= all.skip(i + 1));
        i = i + 1;
    }
    None
}

/// The accounts in which a host has secrets: the ones to delete with it.
pub fn delete_plan() -> (r: Vec<CredentialKind>)
    ensures
        r@ == seq![CredentialKind::Password, CredentialKind::KeyPassphrase],
{
    let mut kinds: Vec<CredentialKind> = Vec::new();
    kinds.push(CredentialKind::Password);
    kinds.push(CredentialKind::KeyPassphrase);
    assert(kinds@ =~= seq![CredentialKind::Password, CredentialKind::KeyPassphrase]);
    kinds
}

/// What the credential store says when an operation fails.
pub fn credential_error(reason: &str) -> (r: String)
    ensures
        r@ == "credential store operation failed: "@ + reason@,
{
    let mut text = "credential store operation failed: ".to_owned();
    text.append(reason);
    text
}

/// A secret is stored under the identity of its host and the word for its kind.
pub proof fn accounts_name_host_and_kind(id: Id)
    ensures
        account(id, CredentialKind::Password) == uuid_text(id.value) + ":password"@,
        account(id, CredentialKind::KeyPassphrase) == uuid_text(id.value) + ":key-passphrase"@,
{
    reveal_strlit(":");
    reveal_strlit("password");
    reveal_strlit("key-passphrase");
    reveal_strlit(":password");
    reveal_strlit(":key-passphrase");
    assert(account(id, CredentialKind::Password) =~= uuid_text(id.value) + ":password"@);
    assert(account(id, CredentialKind::KeyPassphrase) =~= uuid_text(id.value)
        + ":key-passphrase"@);
}

/// Restoring is reported as failed exactly where some write failed, with the first failure.
pub proof fn failed_writes_are_reported(results: Seq<Option<Seq<char>>>, at: int)
    requires
        0 <= at < results.len(),
        results[at] is Some,
        forall|i: int| 0 <= i < at ==> (#[trigger] results[i]) is None,
    ensures
        first_error(results) == results[at],
    decreases results.len(),
{
    if at > 0 {
        let rest = results.skip(1);
        assert(results[0] is None);
        assert forall|i: int| 0 <= i < at - 1 implies (#[trigger] rest[i]) is None by {
            assert(rest[i] == results[i + 1]);
        }
        failed_writes_are_reported(rest, at - 1);
    }
}

/// Where no write failed, restoring went well.
pub proof fn good_writes_are_no_failure(results: Seq<Option<Seq<char>>>)
    requires
        forall|i: int| 0 <= i < results.len() ==> (#[trigger] results[i]) is None,
    ensures
        first_error(results) is None,
    decreases results.len(),
{
    if results.len() > 0 {
        let rest = results.skip(1);
        assert(results[0] is None);
        assert forall|i: int| 0 <= i < rest.len() implies (#[trigger] rest[i]) is None by {
            assert(rest[i] == results[i + 1]);
        }
        good_writes_are_no_failure(rest);
    }
}

} // verus!
