//! What the window makes of the tests of connections.
use vstd::prelude::*;

use crate::editor::{EditorModel, HostEditor};
use crate::failure::{FailureModel, RemoteFailure};
use crate::hosts_app::{AppModel, FingerprintPrompt, HostsApp, PromptModel};
use crate::id::Id;
use crate::message::{Message, MessageModel, Status, StatusModel};
use crate::model::{find_id, host_with_id, index_of_id, models, HostProfile, ProfileModel};
use crate::probes::{count_of, BoardModel, HostTestState};
use crate::remote::{
    verified_models, RemoteResult, VerifiedHostKey, VerifiedModel, TOTAL_TIMEOUT_CODE,
};
use crate::status::StatusKind;
use crate::storage::{copy_hosts, HostStore, StoreModel};
use crate::text::{copy_optional, decimal, decimal_string, same_text, trim, trimmed};
use crate::trust::{apply_verified_host_key, confirmed, confirms, copy_trust, with_trust_of};

verus! {

/// The hosts once one confirmed key is noted with the host that it belongs to.
pub open spec fn noted_one(hosts: Seq<ProfileModel>, key: VerifiedModel) -> Seq<ProfileModel> {
    let at = index_of_id(hosts, key.host_id);
    if at < hosts.len() && confirms(hosts[at], key) {
        hosts.update(at, confirmed(hosts[at], key))
    } else {
        hosts
    }
}

/// The hosts once all confirmed keys are noted, in their order.
pub open spec fn noted(hosts: Seq<ProfileModel>, keys: Seq<VerifiedModel>) -> Seq<ProfileModel>
    decreases keys.len(),
{
    if keys.len() == 0 {
        hosts
    } else {
        noted_one(noted(hosts, keys.drop_last()), keys.last())
    }
}

/// Noting some key changed something.
pub open spec fn any_noted(hosts: Seq<ProfileModel>, keys: Seq<VerifiedModel>) -> bool
    decreases keys.len(),
{
    if keys.len() == 0 {
        false
    } else {
        let before = noted(hosts, keys.drop_last());
        any_noted(hosts, keys.drop_last()) || noted_one(before, keys.last()) != before
    }
}

fn note_key(hosts: &mut Vec<HostProfile>, key: &VerifiedHostKey) -> (r: bool)
    ensures
        models(final(hosts)@) == noted_one(models(old(hosts)@), key@),
        r == (models(final(hosts)@) != models(old(hosts)@)),
{
    let ghost before = models(hosts@);
    match find_id(hosts.as_slice(), key.host_id) {
        None => {
            proof {
                assert(noted_one(before, key@) == before);
            }
            false
        },
        Some(at) => {
            assert(before[at as int] == hosts@[at as int]@);
            let mut host = hosts[at].clone();
            let changed = apply_verified_host_key(&mut host, key);
            let ghost after = host@;
            hosts.set(at, host);
            assert(models(hosts@) =~= before.update(at as int, after));
            proof {
                if changed {
                    assert(models(hosts@)[at as int] != before[at as int]);
                } else {
                    assert(models(hosts@) =~= before);
                    if confirms(before[at as int], key@) {
                        assert(noted_one(before, key@) =~= before);
                    }
                }
            }
            changed
        },
    }
}

/// Notes the keys that a test confirmed. Whether anything changed is returned.
fn note_keys(hosts: &mut Vec<HostProfile>, keys: &Vec<VerifiedHostKey>) -> (r: bool)
    ensures
        models(final(hosts)@) == noted(models(old(hosts)@), verified_models(keys@)),
        r == any_noted(models(old(hosts)@), verified_models(keys@)),
{
    let ghost start = models(hosts@);
    let ghost all = verified_models(keys@);
    let mut changed = false;
    let mut i: usize = 0;
    assert(all.take(0) =~= Seq::empty());
    while i < keys.len()
        invariant
            i <= keys@.len(),
            all == verified_models(keys@),
            start == models(old(hosts)@),
            models(hosts@) == noted(start, all.take(i as int)),
            changed == any_noted(start, all.take(i as int)),
        decreases keys@.len() - i,
    {
        assert(all.take(i + 1).drop_last() =~= all.take(i as int));
        assert(all.take(i + 1).last() == keys@[i as int]@);
        if note_key(hosts, &keys[i]) {
            changed = true;
        }
        i = i + 1;
    }
    assert(all.take(i as int) =~= all);
    changed
}

/// What a test that ended asks for.
#[derive(Debug)]
pub enum FinishStep {
    Nothing,
    /// Save the store, then say how that went.
    Save { updated: HostStore, identity: String },
}

/// What the tests of all hosts ask for.
#[derive(Debug, Clone, Copy, PartialEq, Eq, Structural)]
pub enum Conclusion {
    /// They still run, or none was asked for.
    NotYet,
    /// Save the store, then say how that went.
    Save,
    Over,
}

/// The host key is unknown or differs, and the user can be asked about it.
pub open spec fn asks_for_trust(failure: FailureModel) -> bool {
    (failure.code == "HOSTKEY_UNKNOWN"@ || failure.code == "HOSTKEY_MISMATCH"@) && failure.host_key
        is Some && failure.host_key->0.observed_fingerprint is Some
}

/// The question about the key of a host.
pub open spec fn trust_question(id: Id, failure: FailureModel) -> PromptModel {
    let key = failure.host_key->0;
    PromptModel {
        host_id: id,
        alias: match failure.host_alias {
            Some(alias) => alias,
            None => Seq::empty(),
        },
        expected: key.expected_fingerprint,
        observed: key.observed_fingerprint->0,
        expected_algorithm: key.expected_algorithm,
        observed_algorithm: key.observed_algorithm,
        retry_test: true,
        close_after_choice: false,
    }
}

/// What the user is told of a test that failed.
pub open spec fn failure_status(failure: FailureModel) -> StatusModel {
    if failure.code == "TEST_TIMEOUT"@ || failure.code == TOTAL_TIMEOUT_CODE@ {
        StatusModel::key("status_test_timeout"@)
    } else {
        StatusModel::format("status_test_failed"@, "error"@, failure.code)
    }
}

/// The form with the trust state of the stored host.
pub open spec fn trust_synced(editor: EditorModel, stored: ProfileModel) -> EditorModel {
    EditorModel {
        profile: with_trust_of(editor.profile, stored),
        original: with_trust_of(editor.original, stored),
        ..editor
    }
}

impl AppModel {
    /// The user looks at the host, and no test of all hosts runs.
    pub open spec fn watches(self, id: Id) -> bool {
        !self.board.testing_all && self.selected == Some(id)
    }

    pub open spec fn with_state(self, id: Id, state: HostTestState) -> AppModel {
        AppModel { board: self.board.with_state(id, state), ..self }
    }

    /// The window once the form of a host was given the trust state that is stored.
    pub open spec fn synced(self, id: Id) -> AppModel {
        match (host_with_id(self.store.hosts, id), self.editor) {
            (Some(stored), Some(editor)) => if editor.profile.id == id {
                AppModel { editor: Some(trust_synced(editor, stored)), ..self }
            } else {
                self
            },
            _ => self,
        }
    }

    /// The window once a test failed.
    pub open spec fn test_failed(self, id: Id, failure: FailureModel) -> AppModel {
        let then = self.with_state(id, HostTestState::Failed);
        if !self.watches(id) {
            then
        } else if asks_for_trust(failure) {
            AppModel { fingerprint_prompt: Some(trust_question(id, failure)), ..then }
        } else {
            AppModel { status: failure_status(failure), ..then }
        }
    }

    /// The window says that a test succeeded, if the user looks at the host.
    pub open spec fn test_praised(self, id: Id, identity: Seq<char>) -> AppModel {
        if self.watches(id) {
            AppModel {
                status: StatusModel::format("status_test_ok"@, "identity"@, identity),
                ..self
            }
        } else {
            self
        }
    }

    /// The window once all tests are over.
    pub open spec fn tests_over(self) -> AppModel {
        AppModel {
            board: BoardModel { snapshot: None, ..self.board },
            status: StatusModel {
                kind: if count_of(self.board.states, HostTestState::Failed) == 0 {
                    StatusKind::Success
                } else {
                    StatusKind::Warning
                },
                message: MessageModel::about_both(
                    "status_test_all_done"@,
                    "succeeded"@,
                    decimal(count_of(self.board.states, HostTestState::Succeeded)),
                    "failed"@,
                    decimal(count_of(self.board.states, HostTestState::Failed)),
                ),
            },
            ..self
        }
    }

    /// The window once what the tests confirmed could not be saved.
    pub open spec fn tests_taken_back(self, error: Seq<char>) -> AppModel {
        AppModel {
            store: match self.board.snapshot {
                Some(hosts) => StoreModel { hosts, ..self.store },
                None => self.store,
            },
            board: BoardModel { snapshot: None, dirty: false, ..self.board },
            status: StatusModel::format("storage_error"@, "error"@, error),
            ..self
        }
    }

    /// No test of all hosts runs any more.
    pub open spec fn all_stopped(self) -> AppModel {
        AppModel { board: BoardModel { testing_all: false, ..self.board }, ..self }
    }

    /// The window once what the tests confirmed was saved.
    pub open spec fn tests_kept(self) -> AppModel {
        let clean = AppModel { board: BoardModel { dirty: false, ..self.board }, ..self };
        match self.editor {
            Some(editor) => clean.synced(editor.profile.id),
            None => clean,
        }
    }
}

fn is_one_of(code: &str, a: &str, b: &str) -> (r: bool)
    ensures
        r == (code@ == a@ || code@ == b@),
{
    same_text(code, a) || same_text(code, b)
}

fn question_about(id: Id, failure: &RemoteFailure) -> (r: Option<FingerprintPrompt>)
    ensures
        asks_for_trust(failure@) ==> r is Some && r->0@ == trust_question(id, failure@),
        !asks_for_trust(failure@) ==> r is None,
{
    if !is_one_of(failure.code, "HOSTKEY_UNKNOWN", "HOSTKEY_MISMATCH") {
        return None;
    }
    let key = match &failure.host_key {
        None => {
            return None;
        },
        Some(key) => key,
    };
    let observed = match &key.observed_fingerprint {
        None => {
            return None;
        },
        Some(observed) => observed.clone(),
    };
    let alias = match &failure.host_alias {
        Some(alias) => alias.clone(),
        None => String::new(),
    };
    let prompt = FingerprintPrompt {
        host_id: id,
        alias,
        expected: copy_optional(&key.expected_fingerprint),
        observed,
        expected_algorithm: copy_optional(&key.expected_algorithm),
        observed_algorithm: copy_optional(&key.observed_algorithm),
        retry_test: true,
        close_after_choice: false,
    };
    assert(prompt@ =~= trust_question(id, failure@));
    Some(prompt)
}

fn status_of_failure(failure: &RemoteFailure) -> (r: Status)
    ensures
        r@ == failure_status(failure@),
{
    if is_one_of(failure.code, "TEST_TIMEOUT", TOTAL_TIMEOUT_CODE) {
        Status::key("status_test_timeout")
    } else {
        Status::format("status_test_failed", "error", failure.code.to_owned())
    }
}

fn sync_form(editor: &mut HostEditor, id: Id, stored: &HostProfile)
    ensures
        final(editor)@ == if old(editor)@.profile.id == id {
            trust_synced(old(editor)@, stored@)
        } else {
            old(editor)@
        },
{
    if editor.profile.id == id {
        copy_trust(&mut editor.profile, stored);
        copy_trust(&mut editor.original, stored);
        assert(editor@ =~= trust_synced(old(editor)@, stored@));
    }
}

impl HostsApp {
    fn is_watching(&self, id: Id) -> (r: bool)
        ensures
            r == self@.watches(id),
    {
        let selected = match self.selected {
            Some(selected) => selected == id,
            None => false,
        };
        !self.board.testing_all && selected
    }

    /// Gives the form of a host the trust state that is stored, so that it does not look edited.
    pub fn sync_editor_verification_from_store(&mut self, id: Id)
        ensures
            final(self)@ == old(self)@.synced(id),
    {
        if let Some(at) = find_id(self.store.hosts.as_slice(), id) {
            let stored = self.store.hosts[at].clone();
            assert(self.store@.hosts[at as int] == stored@);
            if let Some(editor) = &mut self.editor {
                sync_form(editor, id, &stored);
            }
        }
    }

    fn praise(&mut self, id: Id, identity: String)
        ensures
            final(self)@ == old(self)@.test_praised(id, identity@),
    {
        if self.is_watching(id) {
            self.status = Status::format("status_test_ok", "identity", identity);
        }
    }

    fn fail_test(&mut self, id: Id, failure: RemoteFailure)
        ensures
            final(self)@ == old(self)@.test_failed(id, failure@),
    {
        let watching = self.is_watching(id);
        self.board.set_state(id, HostTestState::Failed);
        if watching {
            match question_about(id, &failure) {
                Some(prompt) => {
                    self.fingerprint_prompt = Some(prompt);
                },
                None => {
                    self.status = status_of_failure(&failure);
                },
            }
        }
        assert(self@ =~= old(self)@.test_failed(id, failure@));
    }

    /// Takes in what a test of a host came to. Keys that it confirmed are noted; while all hosts
    /// are tested they are saved together at the end.
    pub fn finish_test(&mut self, id: Id, result: Result<RemoteResult, RemoteFailure>) -> (r:
        FinishStep)
        ensures
            match result {
                Err(failure) => r is Nothing && final(self)@ == old(self)@.test_failed(
                    id,
                    failure@,
                ),
                Ok(found) => {
                    let before = old(self)@;
                    let then = before.with_state(id, HostTestState::Succeeded);
                    let hosts = noted(before.store.hosts, found@.verified_host_keys);
                    let changed = any_noted(before.store.hosts, found@.verified_host_keys);
                    let updated = StoreModel { hosts, ..before.store };
                    let identity = trimmed(found@.stdout);
                    if before.board.testing_all {
                        r is Nothing && final(self)@ == (AppModel {
                            store: updated,
                            board: BoardModel { dirty: before.board.dirty || changed, ..then.board },
                            ..then
                        })
                    } else if changed {
                        is_save(r, updated, identity) && final(self)@ == then
                    } else {
                        r is Nothing && final(self)@ == then.test_praised(id, identity)
                    }
                },
            },
    {
        let found = match result {
            Err(failure) => {
                self.fail_test(id, failure);
                return FinishStep::Nothing;
            },
            Ok(found) => found,
        };
        self.board.set_state(id, HostTestState::Succeeded);
        let identity = trim(found.stdout.as_str()).to_owned();
        let mut updated = self.store.clone();
        let changed = note_keys(&mut updated.hosts, &found.verified_host_keys);
        if self.board.testing_all {
            self.store = updated;
            if changed {
                self.board.dirty = true;
            }
            FinishStep::Nothing
        } else if changed {
            FinishStep::Save { updated, identity }
        } else {
            self.praise(id, identity);
            FinishStep::Nothing
        }
    }

    /// Takes in how saving what a test confirmed went.
    pub fn test_saved(
        &mut self,
        id: Id,
        updated: HostStore,
        identity: String,
        failure: Option<String>,
    )
        ensures
            final(self)@ == match failure {
                Some(error) => AppModel {
                    status: StatusModel::format("storage_error"@, "error"@, error@),
                    ..old(self)@
                },
                None => AppModel { store: updated@, ..old(self)@ }.synced(id).test_praised(
                    id,
                    identity@,
                ),
            },
    {
        match failure {
            Some(error) => {
                self.status = Status::format("storage_error", "error", error);
            },
            None => {
                self.store = updated;
                self.sync_editor_verification_from_store(id);
                self.praise(id, identity);
            },
        }
    }

    fn wrap_up_tests(&mut self)
        ensures
            final(self)@ == old(self)@.tests_over(),
    {
        let failed: usize = self.board.count(HostTestState::Failed);
        let succeeded: usize = self.board.count(HostTestState::Succeeded);
        self.board.snapshot = None;
        self.status = Status {
            kind: if failed == 0 {
                StatusKind::Success
            } else {
                StatusKind::Warning
            },
            message: Message::about_both(
                "status_test_all_done",
                "succeeded",
                decimal_string(succeeded as u64),
                "failed",
                decimal_string(failed as u64),
            ),
        };
    }

    /// Looks whether the tests of all hosts are over.
    pub fn conclude_tests(&mut self) -> (r: Conclusion)
        ensures
            ({
                let before = old(self)@;
                let stopped = before.all_stopped();
                if !before.board.testing_all || !before.board.idle() {
                    r == Conclusion::NotYet && final(self)@ == before
                } else if before.board.dirty {
                    r == Conclusion::Save && final(self)@ == stopped
                } else {
                    r == Conclusion::Over && final(self)@ == stopped.tests_over()
                }
            }),
    {
        if !self.board.testing_all || !self.board.tests_idle() {
            return Conclusion::NotYet;
        }
        self.board.testing_all = false;
        if self.board.dirty {
            return Conclusion::Save;
        }
        self.wrap_up_tests();
        Conclusion::Over
    }

    fn keep_tests(&mut self)
        ensures
            final(self)@ == old(self)@.tests_kept(),
    {
        self.board.dirty = false;
        let shown = match &self.editor {
            Some(editor) => Some(editor.profile.id),
            None => None,
        };
        if let Some(id) = shown {
            self.sync_editor_verification_from_store(id);
        }
    }

    fn take_back_tests(&mut self, error: String)
        ensures
            final(self)@ == old(self)@.tests_taken_back(error@),
    {
        let snapshot = self.board.snapshot.take();
        self.board.dirty = false;
        if let Some(hosts) = snapshot {
            self.store.hosts = hosts;
        }
        self.status = Status::format("storage_error", "error", error);
        assert(self@ =~= old(self)@.tests_taken_back(error@));
    }

    /// Takes in how saving what the tests of all hosts confirmed went. If it failed, the hosts
    /// are again what they were when the tests began.
    pub fn all_tests_saved(&mut self, failure: Option<String>)
        ensures
            final(self)@ == match failure {
                Some(error) => old(self)@.tests_taken_back(error@),
                None => old(self)@.tests_kept().tests_over(),
            },
    {
        match failure {
            Some(error) => self.take_back_tests(error),
            None => {
                self.keep_tests();
                self.wrap_up_tests();
            },
        }
    }

    /// The host in the form has to be saved before all hosts are tested.
    pub fn saves_before_tests(&self) -> (r: bool)
        ensures
            r == match self@.editor {
                Some(editor) => editor.profile != editor.original || editor.stores_password()
                    || editor.stores_key_passphrase() || editor.lacks_password(),
                None => false,
            },
    {
        match &self.editor {
            Some(editor) => !editor.profile.same(&editor.original) || editor.should_store_password()
                || editor.should_store_key_passphrase() || editor.password_value_missing(),
            None => false,
        }
    }

    /// Begins a test of all hosts, if there are any. The waiting tests are then to be started.
    pub fn start_all_tests(&mut self) -> (r: bool)
        ensures
            r == (old(self)@.store.hosts.len() > 0),
            final(self)@ == if r {
                AppModel {
                    board: old(self)@.board.all_begun(old(self)@.store.hosts),
                    status: StatusModel::key("testing_all"@),
                    ..old(self)@
                }
            } else {
                AppModel { status: StatusModel::key("test_all_empty"@), ..old(self)@ }
            },
    {
        if self.store.hosts.len() == 0 {
            self.status = Status::key("test_all_empty");
            return false;
        }
        let hosts = copy_hosts(self.store.hosts.as_slice());
        self.board.begin_all(hosts);
        self.status = Status::key("testing_all");
        true
    }
}

/// The step saves a store, and says afterwards who answered.
pub open spec fn is_save(step: FinishStep, updated: StoreModel, identity: Seq<char>) -> bool {
    match step {
        FinishStep::Save { updated: found, identity: name } => found@ == updated && name@
            == identity,
        FinishStep::Nothing => false,
    }
}

/// A test never makes a host trust another key, nor changes how a host is reached.
pub proof fn tests_do_not_change_trust(hosts: Seq<ProfileModel>, keys: Seq<VerifiedModel>, i: int)
    requires
        0 <= i < hosts.len(),
    ensures
        noted(hosts, keys).len() == hosts.len(),
        noted(hosts, keys)[i].id == hosts[i].id,
        noted(hosts, keys)[i].host_fingerprint == hosts[i].host_fingerprint,
        noted(hosts, keys)[i].same_connection(hosts[i]),
    decreases keys.len(),
{
    if keys.len() > 0 {
        tests_do_not_change_trust(hosts, keys.drop_last(), i);
        crate::trust::lemma_index_bounds(noted(hosts, keys.drop_last()), keys.last().host_id);
    }
}

/// Giving a form the trust state that is stored adds nothing to save.
pub proof fn syncing_trust_saves_nothing(editor: EditorModel, stored: ProfileModel)
    requires
        editor.profile == editor.original,
    ensures
        trust_synced(editor, stored).profile == trust_synced(editor, stored).original,
        trust_synced(editor, stored).stale() == editor.stale(),
{
}

/// A test that found a key that is not trusted asks the user about that key; every other failure
/// is told, a timeout as such.
pub proof fn failed_tests_are_told(app: AppModel, id: Id, failure: FailureModel)
    requires
        app.selected == Some(id),
        !app.board.testing_all,
    ensures
        (failure.code == "HOSTKEY_UNKNOWN"@ || failure.code == "HOSTKEY_MISMATCH"@)
            && failure.host_key is Some && failure.host_key->0.observed_fingerprint is Some ==> {
            let prompt = app.test_failed(id, failure).fingerprint_prompt;
            &&& prompt is Some
            &&& prompt->0.host_id == id
            &&& prompt->0.observed == failure.host_key->0.observed_fingerprint->0
            &&& prompt->0.expected == failure.host_key->0.expected_fingerprint
            &&& prompt->0.observed_algorithm == failure.host_key->0.observed_algorithm
            &&& prompt->0.retry_test
            &&& failure.host_alias is Some ==> prompt->0.alias == failure.host_alias->0
        },
        !(failure.code == "HOSTKEY_UNKNOWN"@ || failure.code == "HOSTKEY_MISMATCH"@)
            ==> app.test_failed(id, failure).fingerprint_prompt == app.fingerprint_prompt,
        failure.code == "TEST_TIMEOUT"@ || failure.code == "OPERATION_TIMEOUT"@ ==> app.test_failed(
            id,
            failure,
        ).status == StatusModel::key("status_test_timeout"@),
        app.test_failed(id, failure).store == app.store,
        app.test_failed(id, failure).editor == app.editor,
{
    reveal_strlit("HOSTKEY_UNKNOWN");
    reveal_strlit("HOSTKEY_MISMATCH");
    reveal_strlit("TEST_TIMEOUT");
    reveal_strlit("OPERATION_TIMEOUT");
    assert("HOSTKEY_UNKNOWN"@.len() == 15 && "HOSTKEY_MISMATCH"@.len() == 16);
    assert("TEST_TIMEOUT"@.len() == 12 && "OPERATION_TIMEOUT"@.len() == 17);
}

/// What a test confirmed is noted with the host that it belongs to, where that host trusts the key;
/// every other host stays as it is.
pub proof fn tests_note_confirmed_keys(hosts: Seq<ProfileModel>, key: VerifiedModel, at: int)
    requires
        0 <= at < hosts.len(),
        hosts[at].id == key.host_id,
        forall|i: int| 0 <= i < at ==> (#[trigger] hosts[i]).id != key.host_id,
    ensures
        hosts[at].host_fingerprint == Some(key.fingerprint) ==> noted(hosts, seq![key])
            == hosts.update(at, confirmed(hosts[at], key)) && noted(hosts, seq![key])[at].verified,
        hosts[at].host_fingerprint != Some(key.fingerprint) ==> noted(hosts, seq![key]) == hosts,
        any_noted(hosts, seq![key]) ==> noted(hosts, seq![key]) != hosts,
{
    let keys = seq![key];
    assert(keys.drop_last() =~= Seq::empty());
    assert(keys.last() == key);
    assert(noted(hosts, keys.drop_last()) == hosts);
    assert(!any_noted(hosts, keys.drop_last()));
    crate::model::lemma_index_of_id(hosts, key.host_id, at);
}

/// What could not be saved of the tests is taken back: the hosts are again what they were before
/// the tests began.
pub proof fn unsaved_tests_are_taken_back(
    app: AppModel,
    hosts: Seq<ProfileModel>,
    error: Seq<char>,
)
    requires
        app.board.snapshot == Some(hosts),
    ensures
        app.tests_taken_back(error).store.hosts == hosts,
        app.tests_taken_back(error).board.snapshot is None,
        !app.tests_taken_back(error).board.dirty,
        app.tests_taken_back(error).store.preferred_locale == app.store.preferred_locale,
{
}

/// A form takes over what is stored of the trust in its host; what the user typed stays.
pub proof fn forms_take_over_trust(editor: EditorModel, stored: ProfileModel)
    ensures
        trust_synced(editor, stored).profile.host_fingerprint == stored.host_fingerprint,
        trust_synced(editor, stored).profile.verified == stored.verified,
        trust_synced(editor, stored).original.host_fingerprint == stored.host_fingerprint,
        trust_synced(editor, stored).profile.alias == editor.profile.alias,
        trust_synced(editor, stored).profile.address == editor.profile.address,
        trust_synced(editor, stored).profile.same_connection(editor.profile),
        trust_synced(editor, stored).password == editor.password,
        trust_synced(editor, stored).tag_input == editor.tag_input,
{
}

/// The user is asked to trust a key exactly where it is unknown or another one and was seen; the
/// question shows what was expected and what was seen, and leads to another test.
pub proof fn unknown_keys_are_asked_about(id: Id, failure: FailureModel)
    ensures
        asks_for_trust(failure) ==> failure.host_key is Some
            && failure.host_key->0.observed_fingerprint is Some,
        (failure.code == "HOSTKEY_UNKNOWN"@ || failure.code == "HOSTKEY_MISMATCH"@)
            && failure.host_key is Some && failure.host_key->0.observed_fingerprint is Some
            ==> asks_for_trust(failure),
        failure.code != "HOSTKEY_UNKNOWN"@ && failure.code != "HOSTKEY_MISMATCH"@
            ==> !asks_for_trust(failure),
        asks_for_trust(failure) ==> {
            let asked = trust_question(id, failure);
            &&& asked.host_id == id
            &&& asked.observed == failure.host_key->0.observed_fingerprint->0
            &&& asked.expected == failure.host_key->0.expected_fingerprint
            &&& asked.observed_algorithm == failure.host_key->0.observed_algorithm
            &&& asked.expected_algorithm == failure.host_key->0.expected_algorithm
            &&& asked.retry_test && !asked.close_after_choice
            &&& failure.host_alias matches Some(alias) ==> asked.alias == alias
        },
{
}

/// Once all tests are over, the window says how many succeeded and how many failed, and warns where
/// one did.
pub proof fn tests_are_counted(app: AppModel)
    ensures
        app.tests_over().status.message == MessageModel::about_both(
            "status_test_all_done"@,
            "succeeded"@,
            decimal(count_of(app.board.states, HostTestState::Succeeded)),
            "failed"@,
            decimal(count_of(app.board.states, HostTestState::Failed)),
        ),
        count_of(app.board.states, HostTestState::Failed) == 0 <==> app.tests_over().status.kind
            == StatusKind::Success,
        count_of(app.board.states, HostTestState::Failed) > 0 <==> app.tests_over().status.kind
            == StatusKind::Warning,
        app.tests_over().store == app.store,
{
}

/// A test that succeeded is told to a user who looks at the host, and to no other.
pub proof fn good_tests_are_told_where_watched(app: AppModel, id: Id, identity: Seq<char>)
    ensures
        !app.board.testing_all && app.selected == Some(id) ==> app.test_praised(
            id,
            identity,
        ).status.message == MessageModel::about("status_test_ok"@, "identity"@, identity),
        app.board.testing_all || app.selected != Some(id) ==> app.test_praised(id, identity) == app,
        app.test_praised(id, identity).store == app.store,
{
}

} // verus!
