//! The form in which one host is edited: what it holds, what it still lacks, and what saving it
//! has to write.
use vstd::prelude::*;

use crate::credentials::CredentialKind;
use crate::model::{
    normalize_tags, normalized, normalizing_tags, AuthPersistence, HostProfile, ProfileModel,
    Protocol, SshAuth,
};
use crate::secret::Secret;
use crate::storage::HostStore;
use crate::text::{
    copy_texts, is_blank, lemma_empty_is_trimmed, optional_text, texts, trim, trimmed,
    trimming_is_final,
};

verus! {

/// Whether the host asks for a password.
#[derive(Debug, Clone, Copy, PartialEq, Eq, Structural)]
pub enum PasswordMode {
    Password,
    NoPassword,
}

/// What is stored of a host's secrets, or why that could not be read.
pub struct Lookups {
    pub password: Result<Option<Secret>, String>,
    pub key_passphrase: Result<bool, String>,
}

/// What the stored password says of the host. An empty password is no password.
pub open spec fn mode_of(password: Result<Option<Secret>, String>) -> Option<PasswordMode> {
    match password {
        Ok(Some(text)) => Some(
            if text@.len() == 0 {
                PasswordMode::NoPassword
            } else {
                PasswordMode::Password
            },
        ),
        Ok(None) => None,
        Err(_) => None,
    }
}

pub open spec fn error_of<T>(result: Result<T, String>) -> Option<Seq<char>> {
    match result {
        Ok(_) => None,
        Err(text) => Some(text@),
    }
}

pub struct HostEditor {
    pub tag_input: String,
    pub profile: HostProfile,
    pub original: HostProfile,
    pub password: Secret,
    pub key_passphrase: Secret,
    pub password_mode: PasswordMode,
    pub saved_password_mode: Option<PasswordMode>,
    pub password_read_error: Option<String>,
    pub has_key_passphrase: bool,
    pub key_passphrase_read_error: Option<String>,
    /// False for a host created in this session until the user picks an option of authentication
    /// persistence; saved profiles always carry one.
    pub persistence_chosen: bool,
    /// Set by a failed save so that empty required fields are highlighted.
    pub show_required: bool,
    /// Set by a failed save; the first empty required field is then focused.
    pub focus_first_missing: bool,
    /// True until a host created in this session is saved once: its first explicit choice of
    /// persistence needs no further confirmation.
    pub first_save: bool,
    /// The persistence that the user confirmed; another value in the form asks again.
    pub confirmed_persistence: Option<AuthPersistence>,
}

#[verifier::ext_equal]
pub struct EditorModel {
    pub tag_input: Seq<char>,
    pub profile: ProfileModel,
    pub original: ProfileModel,
    pub password: Seq<char>,
    pub key_passphrase: Seq<char>,
    pub password_mode: PasswordMode,
    pub saved_password_mode: Option<PasswordMode>,
    pub password_read_error: Option<Seq<char>>,
    pub has_key_passphrase: bool,
    pub key_passphrase_read_error: Option<Seq<char>>,
    pub persistence_chosen: bool,
    pub show_required: bool,
    pub focus_first_missing: bool,
    pub first_save: bool,
    pub confirmed_persistence: Option<AuthPersistence>,
}

impl View for HostEditor {
    type V = EditorModel;

    open spec fn view(&self) -> EditorModel {
        EditorModel {
            tag_input: self.tag_input@,
            profile: self.profile@,
            original: self.original@,
            password: self.password@,
            key_passphrase: self.key_passphrase@,
            password_mode: self.password_mode,
            saved_password_mode: self.saved_password_mode,
            password_read_error: optional_text(self.password_read_error),
            has_key_passphrase: self.has_key_passphrase,
            key_passphrase_read_error: optional_text(self.key_passphrase_read_error),
            persistence_chosen: self.persistence_chosen,
            show_required: self.show_required,
            focus_first_missing: self.focus_first_missing,
            first_save: self.first_save,
            confirmed_persistence: self.confirmed_persistence,
        }
    }
}

pub open spec fn mode_or_password(mode: Option<PasswordMode>) -> PasswordMode {
    match mode {
        Some(mode) => mode,
        None => PasswordMode::Password,
    }
}

fn mode_or(mode: Option<PasswordMode>) -> (r: PasswordMode)
    ensures
        r == mode_or_password(mode),
{
    match mode {
        Some(mode) => mode,
        None => PasswordMode::Password,
    }
}

impl EditorModel {
    /// The form of a stored host.
    pub open spec fn loaded(profile: ProfileModel, lookups: Lookups) -> EditorModel {
        EditorModel {
            tag_input: Seq::empty(),
            profile,
            original: profile,
            password: Seq::empty(),
            key_passphrase: Seq::empty(),
            password_mode: mode_or_password(mode_of(lookups.password)),
            saved_password_mode: mode_of(lookups.password),
            password_read_error: error_of(lookups.password),
            has_key_passphrase: lookups.key_passphrase == Ok::<bool, String>(true),
            key_passphrase_read_error: error_of(lookups.key_passphrase),
            persistence_chosen: true,
            show_required: false,
            focus_first_missing: false,
            first_save: false,
            confirmed_persistence: None,
        }
    }

    /// The form of a host that was created just now. For SSH it proposes to keep the session; the
    /// user still has to choose.
    pub open spec fn created(profile: ProfileModel, lookups: Lookups) -> EditorModel {
        EditorModel {
            profile: if profile.protocol == Protocol::Ssh {
                ProfileModel { auth_persistence: AuthPersistence::Session, ..profile }
            } else {
                profile
            },
            persistence_chosen: false,
            first_save: true,
            ..EditorModel::loaded(profile, lookups)
        }
    }

    /// The change of persistence that the user still has to confirm. Persistence relaxes the
    /// guarantee that every call authenticates again, so a saved host's choice does not change
    /// in either direction without a confirmation.
    pub open spec fn change_to_confirm(self) -> Option<(AuthPersistence, AuthPersistence)> {
        let from = self.original.auth_persistence;
        let to = self.profile.auth_persistence;
        if self.first_save || self.profile.protocol != Protocol::Ssh || from == to
            || self.confirmed_persistence == Some(to) {
            None
        } else {
            Some((from, to))
        }
    }

    /// The form once the user answered whether persistence may change. Without a confirmation it
    /// shows again what is saved.
    pub open spec fn persistence_answered(self, confirm: bool, to: AuthPersistence) -> EditorModel {
        if confirm {
            EditorModel { confirmed_persistence: Some(to), ..self }
        } else {
            EditorModel {
                profile: ProfileModel {
                    auth_persistence: self.original.auth_persistence,
                    ..self.profile
                },
                ..self
            }
        }
    }

    pub open spec fn lacks_alias(self) -> bool {
        trimmed(self.profile.alias).len() == 0
    }

    pub open spec fn lacks_address(self) -> bool {
        trimmed(self.profile.address).len() == 0 || self.profile.port == 0
    }

    pub open spec fn lacks_username(self) -> bool {
        trimmed(self.profile.username).len() == 0
    }

    pub open spec fn lacks_private_key(self) -> bool {
        self.profile.protocol == Protocol::Ssh && self.profile.ssh_auth == SshAuth::PrivateKey
            && trimmed(self.profile.private_key_path).len() == 0
    }

    pub open spec fn lacks_persistence(self) -> bool {
        self.profile.protocol == Protocol::Ssh && !self.persistence_chosen
    }

    /// The required fields that are still empty, by their labels, in the order of the form.
    pub open spec fn missing(self) -> Seq<Seq<char>> {
        label_if(self.lacks_alias(), "alias"@) + label_if(self.lacks_address(), "address"@)
            + label_if(self.lacks_username(), "username"@) + label_if(
            self.lacks_private_key(),
            "private_key"@,
        ) + label_if(self.lacks_persistence(), "auth_persistence"@)
    }

    /// Leaving the form would lose something.
    pub open spec fn unsaved(self) -> bool {
        self.profile != self.original || trimmed(self.tag_input).len() > 0 || self.password.len()
            > 0 || self.key_passphrase.len() > 0 || self.password_mode != mode_or_password(
            self.saved_password_mode,
        )
    }

    pub open spec fn uses_password(self) -> bool {
        self.profile.protocol == Protocol::Telnet || self.profile.ssh_auth == SshAuth::Password
    }

    /// Saving writes a password.
    pub open spec fn stores_password(self) -> bool {
        self.uses_password() && match self.password_mode {
            PasswordMode::Password => self.password.len() > 0,
            PasswordMode::NoPassword => self.saved_password_mode != Some(PasswordMode::NoPassword),
        }
    }

    /// Saving writes a passphrase.
    pub open spec fn stores_key_passphrase(self) -> bool {
        self.profile.protocol == Protocol::Ssh && self.profile.ssh_auth == SshAuth::PrivateKey
            && self.key_passphrase.len() > 0
    }

    /// A password is needed and there is none.
    pub open spec fn lacks_password(self) -> bool {
        self.uses_password() && self.password_mode == PasswordMode::Password
            && self.password.len() == 0 && self.saved_password_mode != Some(PasswordMode::Password)
    }

    /// What an earlier test of the connection found says nothing of the host as it is now.
    pub open spec fn stale(self) -> bool {
        !self.profile.same_connection(self.original) || self.stores_password()
            || self.stores_key_passphrase()
    }

    /// The secret that saving writes, and where.
    pub open spec fn update(self) -> Option<(CredentialKind, Seq<char>)> {
        if self.stores_password() {
            Some(
                (
                    CredentialKind::Password,
                    match self.password_mode {
                        PasswordMode::Password => self.password,
                        PasswordMode::NoPassword => Seq::empty(),
                    },
                ),
            )
        } else if self.stores_key_passphrase() {
            Some((CredentialKind::KeyPassphrase, self.key_passphrase))
        } else {
            None
        }
    }

    /// The profile that saving writes.
    pub open spec fn tidied(self) -> ProfileModel {
        let telnet = self.profile.protocol == Protocol::Telnet;
        ProfileModel {
            tags: normalized(self.profile.tags.push(self.tag_input)),
            alias: trimmed(self.profile.alias),
            address: trimmed(self.profile.address),
            username: trimmed(self.profile.username),
            private_key_path: trimmed(self.profile.private_key_path),
            agent_key_fingerprint: trimmed(self.profile.agent_key_fingerprint),
            verified: self.profile.verified && !self.stale(),
            jump_host: if telnet {
                None
            } else {
                self.profile.jump_host
            },
            host_fingerprint: if telnet {
                None
            } else {
                self.profile.host_fingerprint
            },
            host_key_algorithm: if telnet {
                None
            } else {
                self.profile.host_key_algorithm
            },
            host_key_first_seen_unix: if telnet {
                None
            } else {
                self.profile.host_key_first_seen_unix
            },
            host_key_last_verified_unix: if telnet {
                None
            } else {
                self.profile.host_key_last_verified_unix
            },
            ..self.profile
        }
    }

    /// The form once a profile was saved from it.
    pub open spec fn saved(self, profile: ProfileModel) -> EditorModel {
        EditorModel {
            profile,
            original: profile,
            first_save: false,
            confirmed_persistence: None,
            tag_input: Seq::empty(),
            saved_password_mode: if self.stores_password() {
                Some(self.password_mode)
            } else {
                self.saved_password_mode
            },
            password_read_error: if self.stores_password() {
                None
            } else {
                self.password_read_error
            },
            password: if self.stores_password() {
                Seq::empty()
            } else {
                self.password
            },
            has_key_passphrase: self.has_key_passphrase || self.stores_key_passphrase(),
            key_passphrase_read_error: if self.stores_key_passphrase() {
                None
            } else {
                self.key_passphrase_read_error
            },
            key_passphrase: if self.stores_key_passphrase() {
                Seq::empty()
            } else {
                self.key_passphrase
            },
            ..self
        }
    }
}

/// The label, if the field is missing.
pub open spec fn label_if(missing: bool, label: Seq<char>) -> Seq<Seq<char>> {
    if missing {
        seq![label]
    } else {
        Seq::empty()
    }
}

/// The texts of a list of labels.
pub open spec fn labels(list: Seq<&'static str>) -> Seq<Seq<char>> {
    Seq::new(list.len(), |i: int| list[i]@)
}

fn push_label(list: &mut Vec<&'static str>, missing: bool, label: &'static str)
    ensures
        labels(final(list)@) == labels(old(list)@) + label_if(missing, label@),
{
    if missing {
        list.push(label);
    }
    assert(labels(list@) =~= labels(old(list)@) + label_if(missing, label@));
}

impl HostEditor {
    /// The form of a stored host, from what is stored of its secrets.
    pub fn load(profile: HostProfile, lookups: Lookups) -> (r: Self)
        ensures
            r@ == EditorModel::loaded(profile@, lookups),
    {
        let (saved_password_mode, password_read_error) = match lookups.password {
            Ok(Some(password)) => (
                Some(
                    if password.as_str().is_empty() {
                        PasswordMode::NoPassword
                    } else {
                        PasswordMode::Password
                    },
                ),
                None,
            ),
            Ok(None) => (None, None),
            Err(error) => (None, Some(error)),
        };
        let (has_key_passphrase, key_passphrase_read_error) = match lookups.key_passphrase {
            Ok(stored) => (stored, None),
            Err(error) => (false, Some(error)),
        };
        let r = HostEditor {
            original: profile.clone(),
            tag_input: String::new(),
            profile,
            password: Secret::default(),
            key_passphrase: Secret::default(),
            password_mode: mode_or(saved_password_mode),
            saved_password_mode,
            password_read_error,
            has_key_passphrase,
            key_passphrase_read_error,
            persistence_chosen: true,
            show_required: false,
            focus_first_missing: false,
            first_save: false,
            confirmed_persistence: None,
        };
        assert(r@ =~= EditorModel::loaded(profile@, lookups));
        r
    }

    /// The form of a host that was created just now.
    pub fn fresh(profile: HostProfile, lookups: Lookups) -> (r: Self)
        ensures
            r@ == EditorModel::created(profile@, lookups),
    {
        let mut editor = HostEditor::load(profile, lookups);
        if editor.profile.protocol == Protocol::Ssh {
            editor.profile.auth_persistence = AuthPersistence::Session;
        }
        editor.persistence_chosen = false;
        editor.first_save = true;
        assert(editor@ =~= EditorModel::created(profile@, lookups));
        editor
    }

    pub fn persistence_change(&self) -> (r: Option<(AuthPersistence, AuthPersistence)>)
        ensures
            r == self@.change_to_confirm(),
    {
        if self.first_save || self.profile.protocol != Protocol::Ssh {
            return None;
        }
        let from = self.original.auth_persistence;
        let to = self.profile.auth_persistence;
        let confirmed = match self.confirmed_persistence {
            Some(confirmed) => confirmed == to,
            None => false,
        };
        if from != to && !confirmed {
            Some((from, to))
        } else {
            None
        }
    }

    /// Acts on the answer whether persistence may change.
    pub fn answer_persistence(&mut self, confirm: bool, to: AuthPersistence)
        ensures
            final(self)@ == old(self)@.persistence_answered(confirm, to),
    {
        if confirm {
            self.confirmed_persistence = Some(to);
        } else {
            self.profile.auth_persistence = self.original.auth_persistence;
        }
    }

    pub fn missing_required_fields(&self) -> (r: Vec<&'static str>)
        ensures
            labels(r@) == self@.missing(),
    {
        let profile = &self.profile;
        let ssh = profile.protocol == Protocol::Ssh;
        let mut missing: Vec<&'static str> = Vec::new();
        assert(labels(missing@) =~= Seq::empty());
        push_label(&mut missing, is_blank(profile.alias.as_str()), "alias");
        push_label(
            &mut missing,
            is_blank(profile.address.as_str()) || profile.port == 0,
            "address",
        );
        push_label(&mut missing, is_blank(profile.username.as_str()), "username");
        push_label(
            &mut missing,
            ssh && profile.ssh_auth == SshAuth::PrivateKey && is_blank(
                profile.private_key_path.as_str(),
            ),
            "private_key",
        );
        push_label(&mut missing, ssh && !self.persistence_chosen, "auth_persistence");
        assert(labels(missing@) =~= self@.missing());
        missing
    }

    /// The first required field that is still empty.
    pub fn first_missing_field(&self) -> (r: Option<&'static str>)
        ensures
            match r {
                Some(label) => self@.missing().len() > 0 && label@ == self@.missing()[0],
                None => self@.missing().len() == 0,
            },
    {
        let missing = self.missing_required_fields();
        assert(labels(missing@).len() == missing@.len());
        if missing.len() == 0 {
            None
        } else {
            assert(labels(missing@)[0] == missing@[0]@);
            Some(missing[0])
        }
    }

    pub fn connection_changed(&self) -> (r: bool)
        ensures
            r == !self@.profile.same_connection(self@.original),
    {
        !self.profile.connection_details_equal(&self.original)
    }

    pub fn has_unsaved_changes(&self) -> (r: bool)
        ensures
            r == self@.unsaved(),
    {
        !self.profile.same(&self.original) || !is_blank(self.tag_input.as_str())
            || !self.password.as_str().is_empty() || !self.key_passphrase.as_str().is_empty()
            || self.password_mode != mode_or(self.saved_password_mode)
    }

    /// The host is stored as it was when the form was opened.
    pub fn matches_stored_original(&self, store: &HostStore) -> (r: bool)
        ensures
            r == store@.hosts.contains(self@.original),
    {
        let mut i: usize = 0;
        while i < store.hosts.len()
            invariant
                i <= store.hosts@.len(),
                forall|j: int| 0 <= j < i ==> #[trigger] store@.hosts[j] != self@.original,
            decreases store.hosts@.len() - i,
        {
            if store.hosts[i].same(&self.original) {
                assert(store@.hosts[i as int] == self@.original);
                return true;
            }
            i = i + 1;
        }
        false
    }

    pub fn needs_password(&self) -> (r: bool)
        ensures
            r == self@.uses_password(),
    {
        self.profile.protocol == Protocol::Telnet || self.profile.ssh_auth == SshAuth::Password
    }

    pub fn should_store_password(&self) -> (r: bool)
        ensures
            r == self@.stores_password(),
    {
        if !self.needs_password() {
            return false;
        }
        match self.password_mode {
            PasswordMode::Password => !self.password.as_str().is_empty(),
            PasswordMode::NoPassword => match self.saved_password_mode {
                Some(PasswordMode::NoPassword) => false,
                _ => true,
            },
        }
    }

    pub fn should_store_key_passphrase(&self) -> (r: bool)
        ensures
            r == self@.stores_key_passphrase(),
    {
        self.profile.protocol == Protocol::Ssh && self.profile.ssh_auth == SshAuth::PrivateKey
            && !self.key_passphrase.as_str().is_empty()
    }

    pub fn password_value_missing(&self) -> (r: bool)
        ensures
            r == self@.lacks_password(),
    {
        let saved = match self.saved_password_mode {
            Some(PasswordMode::Password) => true,
            _ => false,
        };
        self.needs_password() && self.password_mode == PasswordMode::Password
            && self.password.as_str().is_empty() && !saved
    }

    pub fn test_result_is_stale(&self) -> (r: bool)
        ensures
            r == self@.stale(),
    {
        self.connection_changed() || self.should_store_password()
            || self.should_store_key_passphrase()
    }

    /// The secret that saving writes, and where.
    pub fn credential_update(&self) -> (r: Option<(CredentialKind, Secret)>)
        ensures
            match (r, self@.update()) {
                (Some(found), Some(wanted)) => found.0 == wanted.0 && found.1@ == wanted.1,
                (None, None) => true,
                _ => false,
            },
    {
        if self.should_store_password() {
            let secret = match self.password_mode {
                PasswordMode::Password => self.password.clone(),
                PasswordMode::NoPassword => Secret::default(),
            };
            Some((CredentialKind::Password, secret))
        } else if self.should_store_key_passphrase() {
            Some((CredentialKind::KeyPassphrase, self.key_passphrase.clone()))
        } else {
            None
        }
    }

    /// The profile that saving writes.
    pub fn profile_to_save(&self) -> (r: HostProfile)
        ensures
            r@ == self@.tidied(),
    {
        let mut profile = self.profile.clone();
        let mut tags = copy_texts(&self.profile.tags);
        tags.push(self.tag_input.clone());
        assert(texts(tags@) =~= self@.profile.tags.push(self@.tag_input));
        profile.tags = normalize_tags(&tags);
        profile.alias = trim(self.profile.alias.as_str()).to_owned();
        profile.address = trim(self.profile.address.as_str()).to_owned();
        profile.username = trim(self.profile.username.as_str()).to_owned();
        profile.private_key_path = trim(self.profile.private_key_path.as_str()).to_owned();
        profile.agent_key_fingerprint = trim(
            self.profile.agent_key_fingerprint.as_str(),
        ).to_owned();
        if self.test_result_is_stale() {
            profile.verified = false;
        }
        if profile.protocol == Protocol::Telnet {
            profile.jump_host = None;
            profile.host_fingerprint = None;
            profile.host_key_algorithm = None;
            profile.host_key_first_seen_unix = None;
            profile.host_key_last_verified_unix = None;
        }
        assert(profile@ =~= self@.tidied());
        profile
    }

    /// Notes that a profile was saved from the form.
    pub fn mark_saved(&mut self, profile: HostProfile)
        ensures
            final(self)@ == old(self)@.saved(profile@),
    {
        let store_password = self.should_store_password();
        let store_key_passphrase = self.should_store_key_passphrase();
        self.profile = profile.clone();
        self.original = profile;
        self.first_save = false;
        self.confirmed_persistence = None;
        self.tag_input = String::new();
        if store_password {
            self.saved_password_mode = Some(self.password_mode);
            self.password_read_error = None;
            self.password.clear();
        }
        if store_key_passphrase {
            self.has_key_passphrase = true;
            self.key_passphrase_read_error = None;
            self.key_passphrase.clear();
        }
        assert(self@ =~= old(self)@.saved(profile@));
    }
}

/// Saving writes everything that the form holds: no secret is left to write, an earlier test of
/// the connection is not called into doubt again, and saving once more writes the same profile.
pub proof fn saving_writes_everything(editor: EditorModel)
    ensures
        !editor.saved(editor.tidied()).stores_password(),
        !editor.saved(editor.tidied()).stores_key_passphrase(),
        !editor.saved(editor.tidied()).stale(),
        editor.saved(editor.tidied()).tidied() == editor.tidied(),
{
    let once = editor.tidied();
    let after = editor.saved(once);
    let twice = after.tidied();
    assert(!after.stores_password());
    assert(!after.stores_key_passphrase());
    trimming_is_final(editor.profile.alias);
    trimming_is_final(editor.profile.address);
    trimming_is_final(editor.profile.username);
    trimming_is_final(editor.profile.private_key_path);
    trimming_is_final(editor.profile.agent_key_fingerprint);
    normalizing_tags(editor.profile.tags.push(editor.tag_input));
    lemma_empty_is_trimmed();
    let tags = once.tags.push(Seq::empty());
    assert(tags.drop_last() =~= once.tags);
    assert(normalized(tags) == normalized(once.tags));
    assert(twice =~= once);
}

/// A form from which a host was saved can be left without losing anything, where it held no
/// secret that the host does not use.
pub proof fn a_saved_form_is_clean(editor: EditorModel)
    requires
        !editor.lacks_password(),
        editor.uses_password() || editor.password_mode == mode_or_password(
            editor.saved_password_mode,
        ),
        editor.password.len() == 0 || editor.stores_password(),
        editor.key_passphrase.len() == 0 || editor.stores_key_passphrase(),
    ensures
        !editor.saved(editor.tidied()).unsaved(),
{
    lemma_empty_is_trimmed();
}

/// A host that was saved before changes its persistence only after the change was confirmed.
pub proof fn persistence_changes_are_confirmed(editor: EditorModel)
    requires
        editor.change_to_confirm() is None,
        !editor.first_save,
        editor.profile.protocol == Protocol::Ssh,
    ensures
        editor.tidied().auth_persistence == editor.original.auth_persistence
            || editor.confirmed_persistence == Some(editor.tidied().auth_persistence),
{
}

/// What saving writes of a host is what the form shows, without white space around the texts: its
/// alias, address, port, user name, protocol and way of logging in, its notes, its retention and
/// its tuning.
pub proof fn saving_writes_what_the_form_shows(editor: EditorModel)
    ensures
        ({
            let saved = editor.tidied();
            &&& saved.id == editor.profile.id
            &&& saved.alias == trimmed(editor.profile.alias)
            &&& saved.address == trimmed(editor.profile.address)
            &&& saved.port == editor.profile.port
            &&& saved.username == trimmed(editor.profile.username)
            &&& saved.protocol == editor.profile.protocol
            &&& saved.ssh_auth == editor.profile.ssh_auth
            &&& saved.private_key_path == trimmed(editor.profile.private_key_path)
            &&& saved.agent_key_fingerprint == trimmed(editor.profile.agent_key_fingerprint)
            &&& saved.description == editor.profile.description
            &&& saved.auth_persistence == editor.profile.auth_persistence
            &&& saved.advanced == editor.profile.advanced
            &&& saved.tags == normalized(editor.profile.tags.push(editor.tag_input))
            &&& editor.profile.protocol == Protocol::Ssh ==> saved.jump_host
                == editor.profile.jump_host && saved.host_fingerprint
                == editor.profile.host_fingerprint && saved.host_key_algorithm
                == editor.profile.host_key_algorithm
            &&& editor.profile.protocol == Protocol::Telnet ==> saved.jump_host is None
                && saved.host_fingerprint is None
        }),
{
}

/// A host stays verified exactly while neither its connection nor its secrets change.
pub proof fn edits_of_the_connection_call_for_a_test(editor: EditorModel)
    ensures
        !editor.profile.same_connection(editor.original) ==> editor.stale()
            && !editor.tidied().verified,
        editor.uses_password() && editor.password_mode == PasswordMode::Password
            && editor.password.len() > 0 ==> editor.stale() && !editor.tidied().verified,
        editor.profile == editor.original && editor.password.len() == 0
            && editor.key_passphrase.len() == 0 && editor.password_mode == PasswordMode::Password
            ==> !editor.stale() && editor.tidied().verified == editor.profile.verified,
{
    if editor.profile == editor.original {
        crate::model::same_connection_is_an_equivalence(
            editor.profile,
            editor.original,
            editor.original,
        );
    }
}

/// A password that was typed is stored as the password of the host where it logs in with one, and a
/// passphrase as that of its key file where it logs in with that; nothing else is stored.
pub proof fn typed_secrets_are_stored(editor: EditorModel)
    ensures
        editor.profile.protocol == Protocol::Ssh && editor.profile.ssh_auth == SshAuth::PrivateKey
            && editor.key_passphrase.len() > 0 ==> editor.update() == Some(
            (CredentialKind::KeyPassphrase, editor.key_passphrase),
        ),
        (editor.profile.protocol == Protocol::Telnet || editor.profile.ssh_auth
            == SshAuth::Password) && editor.password_mode == PasswordMode::Password
            && editor.password.len() > 0 ==> editor.update() == Some(
            (CredentialKind::Password, editor.password),
        ),
        (editor.profile.protocol == Protocol::Telnet || editor.profile.ssh_auth
            == SshAuth::Password) && editor.password_mode == PasswordMode::NoPassword
            && editor.saved_password_mode != Some(PasswordMode::NoPassword) ==> editor.update()
            == Some((CredentialKind::Password, Seq::<char>::empty())),
        editor.profile.protocol == Protocol::Ssh && editor.profile.ssh_auth == SshAuth::SshAgent
            ==> editor.update() is None,
        editor.password.len() == 0 && editor.key_passphrase.len() == 0 && editor.password_mode
            == PasswordMode::Password ==> editor.update() is None,
{
}

/// A password is asked for exactly where the host logs in with one, none is typed, and none is
/// stored.
pub proof fn passwords_are_asked_for_once(editor: EditorModel)
    ensures
        editor.lacks_password() <==> (editor.profile.protocol == Protocol::Telnet
            || editor.profile.ssh_auth == SshAuth::Password) && editor.password_mode
            == PasswordMode::Password && editor.password.len() == 0 && editor.saved_password_mode
            != Some(PasswordMode::Password),
{
}

/// The fields that are asked for are those that are empty: each under its label, and none that is
/// filled in.
pub proof fn empty_fields_are_asked_for(editor: EditorModel)
    ensures
        editor.missing().len() == 0 <==> {
            &&& trimmed(editor.profile.alias).len() > 0
            &&& trimmed(editor.profile.address).len() > 0
            &&& editor.profile.port != 0
            &&& trimmed(editor.profile.username).len() > 0
            &&& editor.profile.protocol == Protocol::Ssh && editor.profile.ssh_auth
                == SshAuth::PrivateKey ==> trimmed(editor.profile.private_key_path).len() > 0
            &&& editor.profile.protocol == Protocol::Ssh ==> editor.persistence_chosen
        },
        trimmed(editor.profile.alias).len() == 0 ==> editor.missing().len() > 0
            && editor.missing()[0] == "alias"@,
{
}

/// A form holds something unsaved exactly where its host was changed, a tag was begun, a secret was
/// typed, or the way of giving a password changed.
pub proof fn unsaved_forms_are_noticed(editor: EditorModel)
    ensures
        editor.profile != editor.original ==> editor.unsaved(),
        editor.password.len() > 0 ==> editor.unsaved(),
        editor.key_passphrase.len() > 0 ==> editor.unsaved(),
        trimmed(editor.tag_input).len() > 0 ==> editor.unsaved(),
        editor.profile == editor.original && editor.password.len() == 0
            && editor.key_passphrase.len() == 0 && trimmed(editor.tag_input).len() == 0
            && editor.password_mode == PasswordMode::Password && editor.saved_password_mode
            != Some(PasswordMode::NoPassword) ==> !editor.unsaved(),
{
}

/// A form shows the host that it was opened on, and nothing of its secrets but whether they are
/// there.
pub proof fn forms_show_their_host(profile: ProfileModel, lookups: Lookups)
    ensures
        ({
            let form = EditorModel::loaded(profile, lookups);
            &&& form.profile == profile
            &&& form.original == profile
            &&& form.password.len() == 0
            &&& form.key_passphrase.len() == 0
            &&& lookups.password matches Ok(Some(text)) ==> (form.saved_password_mode == Some(
                PasswordMode::NoPassword,
            ) <==> text@.len() == 0)
            &&& lookups.password matches Ok(Some(text)) ==> form.saved_password_mode is Some
            &&& lookups.password matches Ok(None) ==> form.saved_password_mode is None
            &&& lookups.password is Err ==> form.saved_password_mode is None
                && form.password_read_error == Some(lookups.password->Err_0@)
            &&& lookups.key_passphrase matches Ok(stored) ==> form.has_key_passphrase == stored
        }),
{
}

/// A change of persistence that is confirmed is remembered; one that is not is taken back.
pub proof fn persistence_changes_need_a_yes(editor: EditorModel, to: AuthPersistence)
    ensures
        editor.persistence_answered(true, to).confirmed_persistence == Some(to),
        editor.persistence_answered(true, to).profile == editor.profile,
        editor.persistence_answered(false, to).profile.auth_persistence
            == editor.original.auth_persistence,
        editor.persistence_answered(false, to).profile.address == editor.profile.address,
        editor.persistence_answered(false, to).confirmed_persistence
            == editor.confirmed_persistence,
{
}

} // verus!
