//! What the window does at the user's request: hosts are added, removed, imported and exported,
//! host keys are trusted, and the window is hidden and shown.
use vstd::prelude::*;

use crate::callback::{is_flush, Flush};
use crate::credentials::CredentialKind;
use crate::editor::{EditorModel, HostEditor, Lookups};
use crate::hosts_app::{
    form_of, should_hide_to_tray, with_host, AppModel, CleanupModel, FingerprintPrompt, HostsApp,
    ImportCleanupPrompt, PromptModel,
};
use crate::id::{is_random_id, Id};
use crate::import::{imported_credential, ImportedHost};
use crate::message::{Status, StatusModel};
use crate::model::{find_id, host_with_id, index_of_id, models, HostProfile, ProfileModel};
use crate::pool::copy_ids;
use crate::probes::BoardModel;
use crate::removal::{hosts_left, remove_hosts, Removal, RemovalModel};
use crate::secret::Secret;
use crate::selection::{
    batch_has_external_dependents, has_outside_dependent, toggle_visible_selection, toggled,
    visible_ids,
};
use crate::storage::{name_taken, neutral_name, HostStore, StoreModel};
use crate::text::{decimal, decimal_string};
use crate::tray::Event;
use crate::trust::{trust_host_key, trusting};

verus! {

/// The alias is the first numbered name that no host has.
pub open spec fn is_neutral(hosts: Seq<ProfileModel>, alias: Seq<char>) -> bool {
    exists|n: nat|
        n >= 1 && alias == #[trigger] neutral_name(n) && !name_taken(hosts, n) && forall|k: nat|
            1 <= k < n ==> #[trigger] name_taken(hosts, k)
}

/// The form of the first host.
pub open spec fn first_form(hosts: Seq<ProfileModel>, lookups: Lookups) -> Option<EditorModel> {
    if hosts.len() > 0 {
        form_of(hosts, hosts[0].id, lookups)
    } else {
        None
    }
}

pub open spec fn first_id(hosts: Seq<ProfileModel>) -> Option<Id> {
    if hosts.len() > 0 {
        Some(hosts[0].id)
    } else {
        None
    }
}

fn show_first(hosts: &Vec<HostProfile>, lookups: Lookups) -> (r: (Option<Id>, Option<HostEditor>))
    ensures
        r.0 == first_id(models(hosts@)),
        crate::hosts_app::editor_model(r.1) == first_form(models(hosts@), lookups),
{
    if hosts.len() == 0 {
        return (None, None);
    }
    let id = hosts[0].id;
    assert(models(hosts@)[0] == hosts@[0]@);
    match find_id(hosts.as_slice(), id) {
        Some(at) => {
            assert(models(hosts@)[at as int] == hosts@[at as int]@);
            (Some(id), Some(HostEditor::load(hosts[at].clone(), lookups)))
        },
        None => (Some(id), None),
    }
}

/// A host is reached through another.
pub open spec fn is_jump_host(hosts: Seq<ProfileModel>, id: Id) -> bool {
    exists|i: int| 0 <= i < hosts.len() && (#[trigger] hosts[i]).jump_host == Some(id)
}

fn serves_as_jump(hosts: &[HostProfile], id: Id) -> (r: bool)
    ensures
        r == is_jump_host(models(hosts@), id),
{
    let ghost all = models(hosts@);
    let mut i: usize = 0;
    while i < hosts.len()
        invariant
            i <= hosts@.len(),
            all == models(hosts@),
            forall|j: int| 0 <= j < i ==> (#[trigger] all[j]).jump_host != Some(id),
        decreases hosts@.len() - i,
    {
        if let Some(jump) = hosts[i].jump_host {
            if jump == id {
                assert(all[i as int].jump_host == Some(id));
                return true;
            }
        }
        i = i + 1;
    }
    false
}

/// What the user's answer about a host key asks for.
#[derive(Debug)]
pub enum FingerprintStep {
    Nothing,
    /// Report the refusal; if that fails, the question stands again.
    Report { flush: Flush, prompt: FingerprintPrompt },
    /// Save the store, then say how that went.
    Save { updated: HostStore, prompt: FingerprintPrompt },
}

/// What trusting a host key asks for.
#[derive(Debug, PartialEq, Eq)]
pub enum TrustStep {
    Nothing,
    /// Report the outcome, then close the window.
    Report(Flush),
    /// Test the connection again.
    Retry(Id),
}

/// What is asked of the window itself.
#[derive(Debug, Clone, Copy, PartialEq, Eq, Structural)]
pub struct TrayEffects {
    pub restore: bool,
    pub open_secrets: bool,
    pub close: bool,
}

/// What becomes of a request to close the window.
#[derive(Debug, Clone, Copy, PartialEq, Eq, Structural)]
pub enum CloseStep {
    /// The request is left as it is.
    Nothing,
    /// The window is hidden instead.
    Hide,
    /// The window stays, since there is no icon to bring it back.
    Stay,
}

pub open spec fn heard(events: Seq<Event>, event: Event) -> bool {
    events.contains(event)
}

impl AppModel {
    pub open spec fn says(self, status: StatusModel) -> AppModel {
        AppModel { status, ..self }
    }

    /// The window once the user refused to trust a key.
    pub open spec fn key_refused(self, prompt: PromptModel) -> AppModel {
        let said = self.says(StatusModel::key("status_cancelled"@));
        if prompt.close_after_choice {
            AppModel {
                callback: self.callback.decided("cancelled"@, Some(prompt.alias)).flushed(),
                ..said
            }
        } else {
            said
        }
    }

    /// The window once the user chose to trust a key, before that is saved.
    pub open spec fn key_accepted(self, prompt: PromptModel) -> AppModel {
        if host_with_id(self.store.hosts, prompt.host_id) is Some {
            self
        } else {
            self.says(StatusModel::format("storage_error"@, "error"@, "HOST_NOT_FOUND"@))
        }
    }

    /// The window once the key of a host is trusted.
    pub open spec fn trusted(self, updated: StoreModel, prompt: PromptModel) -> AppModel {
        AppModel {
            store: updated,
            editor: match self.editor {
                Some(editor) => if editor.profile.id == prompt.host_id {
                    Some(trusting_form(editor, prompt))
                } else {
                    Some(editor)
                },
                None => None,
            },
            ..self
        }
    }

    /// The window once what follows from trusting a key is under way.
    pub open spec fn trust_followed(self, prompt: PromptModel) -> AppModel {
        if prompt.close_after_choice {
            AppModel {
                callback: self.callback.decided("trusted"@, Some(prompt.alias)).flushed(),
                ..self
            }
        } else if prompt.retry_test && self.selected == Some(prompt.host_id) {
            self.says(StatusModel::key("testing"@))
        } else {
            self
        }
    }

    /// The window once hosts were removed.
    pub open spec fn removed(self, ids: Seq<Id>, lookups: Lookups) -> AppModel {
        let left = hosts_left(self.store.hosts, ids);
        AppModel {
            store: StoreModel { hosts: left, ..self.store },
            board: forgotten_all(self.board, ids),
            selected: first_id(left),
            editor: first_form(left, lookups),
            ..self
        }
    }

    /// The window once a choice of hosts was acted on.
    pub open spec fn batch_over(self) -> AppModel {
        AppModel {
            batch_mode: false,
            batch_selected: Seq::empty(),
            board: if self.board.testing_all && self.board.idle() {
                BoardModel { testing_all: false, snapshot: None, ..self.board }
            } else {
                self.board
            },
            status: StatusModel::key("batch_deleted"@),
            ..self
        }
    }

    /// The window once hosts were imported.
    pub open spec fn imported(
        self,
        profiles: Seq<ProfileModel>,
        sensitive: bool,
        path: Seq<char>,
        lookups: Lookups,
    ) -> AppModel {
        let hosts = self.store.hosts + profiles;
        let count = decimal(profiles.len());
        AppModel {
            store: StoreModel { hosts, ..self.store },
            selected: if profiles.len() > 0 {
                Some(profiles[0].id)
            } else {
                self.selected
            },
            editor: if profiles.len() > 0 {
                form_of(hosts, profiles[0].id, lookups)
            } else {
                self.editor
            },
            scroll_to_selected: self.scroll_to_selected || profiles.len() > 0,
            import_window_open: false,
            status: if sensitive {
                StatusModel::format("import_succeeded_with_credentials"@, "count"@, count)
            } else {
                StatusModel::format("import_succeeded"@, "count"@, count)
            },
            import_cleanup_prompt: if sensitive {
                Some(CleanupModel { path, imported_count: profiles.len() as usize })
            } else {
                self.import_cleanup_prompt
            },
            ..self
        }
    }
}

/// The form once the key of its host is trusted.
pub open spec fn trusting_form(editor: EditorModel, prompt: PromptModel) -> EditorModel {
    EditorModel {
        profile: trusting(editor.profile, prompt.observed, prompt.observed_algorithm),
        original: trusting(editor.original, prompt.observed, prompt.observed_algorithm),
        ..editor
    }
}

pub open spec fn forgotten_all(board: BoardModel, ids: Seq<Id>) -> BoardModel
    decreases ids.len(),
{
    if ids.len() == 0 {
        board
    } else {
        forgotten_all(board, ids.drop_last()).forgotten(ids.last())
    }
}

/// A secret that an import stores.
#[derive(PartialEq, Eq)]
pub struct SecretWrite {
    pub id: Id,
    pub kind: CredentialKind,
    pub secret: Secret,
}

/// The host's secret is written.
pub open spec fn writes_secret(item: ImportedHost, write: SecretWrite) -> bool {
    write.id == item.profile.id && match secret_of(item) {
        Some(pair) => write.kind == pair.0 && write.secret@ == pair.1,
        None => false,
    }
}

/// The secret that a host brings, if its way of logging in calls for it.
pub open spec fn secret_of(item: ImportedHost) -> Option<(CredentialKind, Seq<char>)> {
    let profile = item.profile@;
    if profile.protocol == crate::model::Protocol::Ssh && profile.ssh_auth
        == crate::model::SshAuth::SshAgent {
        None
    } else if profile.protocol == crate::model::Protocol::Ssh && profile.ssh_auth
        == crate::model::SshAuth::PrivateKey {
        if item.key_passphrase@.len() == 0 {
            None
        } else {
            Some((CredentialKind::KeyPassphrase, item.key_passphrase@))
        }
    } else if item.password@.len() == 0 {
        None
    } else {
        Some((CredentialKind::Password, item.password@))
    }
}

/// Positions of the hosts that bring a secret, in their order.
pub open spec fn bringing(items: Seq<ImportedHost>) -> Seq<int>
    decreases items.len(),
{
    if items.len() == 0 {
        Seq::empty()
    } else {
        let before = bringing(items.drop_last());
        if secret_of(items.last()) is Some {
            before.push(items.len() - 1)
        } else {
            before
        }
    }
}

/// The writes are those of the hosts at these places, in their order.
pub open spec fn all_written(
    items: Seq<ImportedHost>,
    places: Seq<int>,
    writes: Seq<SecretWrite>,
) -> bool {
    writes.len() == places.len() && forall|k: int|
        0 <= k < writes.len() ==> writes_secret(items[places[k]], #[trigger] writes[k])
}

/// The secrets that an import stores, in the order of its hosts. If one cannot be stored, or the
/// hosts cannot be saved afterwards, the secrets of all its hosts are deleted again.
pub fn import_secrets(items: &Vec<ImportedHost>) -> (r: Vec<SecretWrite>)
    ensures
        all_written(items@, bringing(items@), r@),
{
    let mut out: Vec<SecretWrite> = Vec::new();
    let mut i: usize = 0;
    assert(items@.take(0) =~= Seq::empty());
    while i < items.len()
        invariant
            i <= items@.len(),
            all_written(items@, bringing(items@.take(i as int)), out@),
        decreases items@.len() - i,
    {
        let ghost before = bringing(items@.take(i as int));
        let ghost so_far = out@;
        assert(items@.take(i + 1).drop_last() =~= items@.take(i as int));
        assert(items@.take(i + 1).last() == items@[i as int]);
        if let Some((kind, secret)) = imported_credential(&items[i]) {
            out.push(SecretWrite { id: items[i].profile.id, kind, secret });
            assert(bringing(items@.take(i + 1)) == before.push(i as int));
        }
        i = i + 1;
    }
    assert(items@.take(i as int) =~= items@);
    out
}

fn trust_form(editor: &mut HostEditor, prompt: &FingerprintPrompt)
    ensures
        final(editor)@ == if old(editor)@.profile.id == prompt.host_id {
            trusting_form(old(editor)@, prompt@)
        } else {
            old(editor)@
        },
{
    if editor.profile.id == prompt.host_id {
        trust_host_key(&mut editor.profile, prompt.observed.as_str(), &prompt.observed_algorithm);
        trust_host_key(&mut editor.original, prompt.observed.as_str(), &prompt.observed_algorithm);
        assert(editor@ =~= trusting_form(old(editor)@, prompt@));
    }
}

impl HostsApp {
    /// Adds a host under a name that no other has. The store is to be saved then.
    pub fn draft_host(&mut self) -> (r: HostProfile)
        requires
            old(self)@.store.hosts.len() < u32::MAX,
        ensures
            is_neutral(old(self)@.store.hosts, r@.alias),
            r@ == (ProfileModel { alias: r@.alias, ..ProfileModel::blank(r.id) }),
            is_random_id(r.id.value),
            final(self)@ == (AppModel {
                store: StoreModel {
                    hosts: old(self)@.store.hosts.push(r@),
                    ..old(self)@.store
                },
                ..old(self)@
            }),
    {
        let alias = self.store.next_neutral_alias();
        let profile = HostProfile::new(alias);
        self.store.hosts.push(profile.clone());
        assert(models(self.store.hosts@) =~= old(self)@.store.hosts.push(profile@));
        profile
    }

    /// Takes in how saving a new host went. If it failed, the host is gone again.
    pub fn new_host_saved(
        &mut self,
        profile: HostProfile,
        failure: Option<String>,
        lookups: Lookups,
    )
        ensures
            final(self)@ == match failure {
                Some(error) => AppModel {
                    store: StoreModel {
                        hosts: hosts_left(old(self)@.store.hosts, seq![profile.id]),
                        ..old(self)@.store
                    },
                    status: StatusModel::format("storage_error"@, "error"@, error@),
                    ..old(self)@
                },
                None => AppModel {
                    selected: Some(profile.id),
                    editor: Some(EditorModel::created(profile@, lookups)),
                    scroll_to_selected: true,
                    ..old(self)@
                },
            },
    {
        match failure {
            Some(error) => {
                let mut gone: Vec<Id> = Vec::new();
                gone.push(profile.id);
                assert(gone@ =~= seq![profile.id]);
                let hosts = crate::storage::copy_hosts(self.store.hosts.as_slice());
                self.store.hosts = remove_hosts(hosts, &gone);
                self.status = Status::format("storage_error", "error", error);
            },
            None => {
                self.selected = Some(profile.id);
                self.editor = Some(HostEditor::fresh(profile, lookups));
                self.scroll_to_selected = true;
            },
        }
    }

    /// Says that the host was saved. An editor that was opened for someone else reports it, and
    /// is closed once it has.
    pub fn saved(&mut self) -> (r: Option<Flush>)
        ensures
            ({
                let before = old(self)@;
                let said = before.says(StatusModel::key("status_saved"@));
                let alias = match before.editor {
                    Some(editor) => editor.profile.alias,
                    None => Seq::empty(),
                };
                let decided = before.callback.decided("saved"@, Some(alias));
                if before.launch.codex_edit {
                    final(self)@ == (AppModel { callback: decided.flushed(), ..said }) && r
                        is Some && is_flush(decided, r->0)
                } else {
                    final(self)@ == said && r is None
                }
            }),
    {
        self.status = Status::key("status_saved");
        if !self.launch.codex_edit {
            return None;
        }
        let alias = match &self.editor {
            Some(editor) => editor.profile.alias.clone(),
            None => String::new(),
        };
        Some(self.callback.write_callback("saved", Some(alias.as_str())))
    }

    /// Takes in how the report went.
    pub fn reported(&mut self, failure: Option<String>)
        ensures
            final(self)@ == match failure {
                Some(error) => old(self)@.says(
                    StatusModel::format("callback_error"@, "error"@, error@),
                ),
                None => AppModel { callback: old(self)@.callback.made(), ..old(self)@ },
            },
    {
        match failure {
            Some(error) => {
                self.status = Status::format("callback_error", "error", error);
            },
            None => self.callback.flushed(true),
        }
    }

    /// An editor that was opened for someone else and is closed without an outcome reports that.
    pub fn abandoned(&mut self) -> (r: Option<Flush>)
        ensures
            ({
                let before = old(self)@;
                let alias = match before.editor {
                    Some(editor) => Some(editor.profile.alias),
                    None => None,
                };
                let decided = before.callback.decided("cancelled"@, alias);
                if before.launch.codex_edit && !before.callback.written {
                    final(self)@ == (AppModel { callback: decided.flushed(), ..before }) && r
                        is Some && is_flush(decided, r->0)
                } else {
                    final(self)@ == before && r is None
                }
            }),
    {
        if !self.launch.codex_edit || self.callback.written {
            return None;
        }
        let alias = match &self.editor {
            Some(editor) => Some(editor.profile.alias.clone()),
            None => None,
        };
        Some(
            match &alias {
                Some(alias) => self.callback.write_callback("cancelled", Some(alias.as_str())),
                None => self.callback.write_callback("cancelled", None),
            },
        )
    }

    /// Acts on the answer whether a host key is to be trusted.
    pub fn apply_fingerprint_choice(&mut self, trust: bool) -> (r: FingerprintStep)
        ensures
            match old(self)@.fingerprint_prompt {
                None => final(self)@ == old(self)@ && r is Nothing,
                Some(prompt) => {
                    let taken = AppModel { fingerprint_prompt: None, ..old(self)@ };
                    if trust {
                        final(self)@ == taken.key_accepted(prompt) && accepts(taken, prompt, r)
                    } else {
                        final(self)@ == taken.key_refused(prompt) && refuses(taken, prompt, r)
                    }
                },
            },
    {
        let prompt = match self.fingerprint_prompt.take() {
            None => {
                return FingerprintStep::Nothing;
            },
            Some(prompt) => prompt,
        };
        if trust {
            self.accept_key(prompt)
        } else {
            self.refuse_key(prompt)
        }
    }

    fn refuse_key(&mut self, prompt: FingerprintPrompt) -> (r: FingerprintStep)
        ensures
            final(self)@ == old(self)@.key_refused(prompt@),
            refuses(old(self)@, prompt@, r),
    {
        self.status = Status::key("status_cancelled");
        if prompt.close_after_choice {
            let flush = self.callback.write_callback("cancelled", Some(prompt.alias.as_str()));
            FingerprintStep::Report { flush, prompt }
        } else {
            FingerprintStep::Nothing
        }
    }

    fn accept_key(&mut self, prompt: FingerprintPrompt) -> (r: FingerprintStep)
        ensures
            final(self)@ == old(self)@.key_accepted(prompt@),
            accepts(old(self)@, prompt@, r),
    {
        match find_id(self.store.hosts.as_slice(), prompt.host_id) {
            None => {
                self.status = Status::format("storage_error", "error", "HOST_NOT_FOUND".to_owned());
                FingerprintStep::Nothing
            },
            Some(at) => {
                let updated = trust_in_store(&self.store, at, &prompt);
                FingerprintStep::Save { updated, prompt }
            },
        }
    }

    /// Takes in how reporting a refusal went. If it failed, the question stands again.
    pub fn refusal_reported(&mut self, prompt: FingerprintPrompt, failure: Option<String>)
        ensures
            final(self)@ == match failure {
                Some(error) => AppModel {
                    status: StatusModel::format("callback_error"@, "error"@, error@),
                    fingerprint_prompt: Some(prompt@),
                    ..old(self)@
                },
                None => AppModel { callback: old(self)@.callback.made(), ..old(self)@ },
            },
    {
        match failure {
            Some(error) => {
                self.status = Status::format("callback_error", "error", error);
                self.fingerprint_prompt = Some(prompt);
            },
            None => self.callback.flushed(true),
        }
    }

    /// Takes in how saving a trusted key went. If it failed, the question stands again.
    pub fn trust_saved(
        &mut self,
        updated: HostStore,
        prompt: FingerprintPrompt,
        failure: Option<String>,
    ) -> (r: TrustStep)
        ensures
            match failure {
                Some(error) => r is Nothing && final(self)@ == (AppModel {
                    status: StatusModel::format("storage_error"@, "error"@, error@),
                    fingerprint_prompt: Some(prompt@),
                    ..old(self)@
                }),
                None => {
                    let then = old(self)@.trusted(updated@, prompt@);
                    final(self)@ == then.trust_followed(prompt@) && follows(then, prompt@, r)
                },
            },
    {
        match failure {
            Some(error) => {
                self.status = Status::format("storage_error", "error", error);
                self.fingerprint_prompt = Some(prompt);
                TrustStep::Nothing
            },
            None => {
                self.take_trust(updated, &prompt);
                self.follow_trust(prompt)
            },
        }
    }

    fn take_trust(&mut self, updated: HostStore, prompt: &FingerprintPrompt)
        ensures
            final(self)@ == old(self)@.trusted(updated@, prompt@),
    {
        self.store = updated;
        if let Some(editor) = &mut self.editor {
            trust_form(editor, prompt);
        }
        assert(self@ =~= old(self)@.trusted(updated@, prompt@));
    }

    fn follow_trust(&mut self, prompt: FingerprintPrompt) -> (r: TrustStep)
        ensures
            final(self)@ == old(self)@.trust_followed(prompt@),
            follows(old(self)@, prompt@, r),
    {
        if prompt.close_after_choice {
            let flush = self.callback.write_callback("trusted", Some(prompt.alias.as_str()));
            return TrustStep::Report(flush);
        }
        if !prompt.retry_test {
            return TrustStep::Nothing;
        }
        let selected = match self.selected {
            Some(selected) => selected == prompt.host_id,
            None => false,
        };
        if selected {
            self.status = Status::key("testing");
        }
        TrustStep::Retry(prompt.host_id)
    }

    /// Begins to remove the selected host, unless another is reached through it.
    pub fn remove_selected(&mut self) -> (r: Option<Removal>)
        ensures
            match old(self)@.selected {
                None => final(self)@ == old(self)@ && r is None,
                Some(id) => if is_jump_host(old(self)@.store.hosts, id) {
                    r is None && final(self)@ == old(self)@.says(StatusModel::key("chain_in_use"@))
                } else {
                    r is Some && r->0@ == RemovalModel::first(seq![id]) && final(self)@ == old(
                        self,
                    )@
                },
            },
    {
        let id = match self.selected {
            None => {
                return None;
            },
            Some(id) => id,
        };
        if serves_as_jump(self.store.hosts.as_slice(), id) {
            self.status = Status::key("chain_in_use");
            return None;
        }
        let mut ids: Vec<Id> = Vec::new();
        ids.push(id);
        assert(ids@ =~= seq![id]);
        Some(Removal::first(ids))
    }

    /// Begins to remove the hosts that are chosen.
    pub fn remove_batch(&self) -> (r: Removal)
        ensures
            r@ == RemovalModel::first(self@.batch_selected),
    {
        Removal::first(copy_ids(&self.batch_selected))
    }

    /// The store without the hosts that are to be removed.
    pub fn store_without(&self, ids: &Vec<Id>) -> (r: HostStore)
        ensures
            r@ == (StoreModel { hosts: hosts_left(self@.store.hosts, ids@), ..self@.store }),
    {
        let mut store = self.store.clone();
        let hosts = crate::storage::copy_hosts(self.store.hosts.as_slice());
        store.hosts = remove_hosts(hosts, ids);
        store
    }

    fn forget_all(&mut self, ids: &Vec<Id>)
        ensures
            final(self)@ == (AppModel {
                board: forgotten_all(old(self)@.board, ids@),
                ..old(self)@
            }),
    {
        let ghost start = self.board@;
        let mut i: usize = 0;
        assert(ids@.take(0) =~= Seq::empty());
        while i < ids.len()
            invariant
                i <= ids@.len(),
                start == old(self)@.board,
                self@ == (AppModel {
                    board: forgotten_all(start, ids@.take(i as int)),
                    ..old(self)@
                }),
            decreases ids@.len() - i,
        {
            assert(ids@.take(i + 1).drop_last() =~= ids@.take(i as int));
            self.board.forget(ids[i]);
            i = i + 1;
        }
        assert(ids@.take(i as int) =~= ids@);
    }

    /// Takes in that hosts were removed. The first host that is left is shown.
    pub fn hosts_removed(&mut self, ids: &Vec<Id>, lookups: Lookups)
        ensures
            final(self)@ == old(self)@.removed(ids@, lookups),
    {
        self.store = self.store_without(ids);
        self.forget_all(ids);
        let (selected, editor) = show_first(&self.store.hosts, lookups);
        self.selected = selected;
        self.editor = editor;
        assert(self@ =~= old(self)@.removed(ids@, lookups));
    }

    /// Takes in that the hosts that were chosen were removed.
    pub fn batch_removed(&mut self)
        ensures
            final(self)@ == old(self)@.batch_over(),
    {
        self.batch_mode = false;
        self.batch_selected = Vec::new();
        if self.board.testing_all && self.board.tests_idle() {
            self.board.testing_all = false;
            self.board.snapshot = None;
        }
        self.status = Status::key("batch_deleted");
        assert(self@ =~= old(self)@.batch_over());
    }

    pub fn begin_batch_mode(&mut self)
        ensures
            final(self)@ == (AppModel {
                batch_mode: true,
                batch_selected: Seq::empty(),
                status: StatusModel::key("batch_select_hint"@),
                ..old(self)@
            }),
    {
        self.batch_mode = true;
        self.batch_selected = Vec::new();
        self.status = Status::key("batch_select_hint");
    }

    pub fn toggle_batch_selection(&mut self)
        ensures
            final(self)@ == (AppModel {
                batch_selected: toggled(
                    visible_ids(old(self)@.store.hosts, old(self)@.host_filter),
                    old(self)@.batch_selected,
                ),
                ..old(self)@
            }),
    {
        toggle_visible_selection(
            self.store.hosts.as_slice(),
            &self.host_filter,
            &mut self.batch_selected,
        );
    }

    pub fn cancel_batch_mode(&mut self)
        ensures
            final(self)@ == (AppModel {
                batch_mode: false,
                batch_selected: Seq::empty(),
                batch_delete_prompt: false,
                batch_export_window_open: false,
                status: StatusModel::key("status_ready"@),
                ..old(self)@
            }),
    {
        self.batch_mode = false;
        self.batch_selected = Vec::new();
        self.batch_delete_prompt = false;
        self.batch_export_window_open = false;
        self.status = Status::key("status_ready");
    }

    /// Asks whether the hosts that are chosen are to be removed, unless another host is reached
    /// through one of them.
    pub fn request_batch_delete(&mut self)
        ensures
            final(self)@ == if old(self)@.batch_selected.len() == 0 {
                old(self)@.says(StatusModel::key("batch_nothing_selected"@))
            } else if has_outside_dependent(old(self)@.store.hosts, old(self)@.batch_selected) {
                old(self)@.says(StatusModel::key("chain_in_use"@))
            } else {
                AppModel { batch_delete_prompt: true, ..old(self)@ }
            },
    {
        if self.batch_selected.len() == 0 {
            self.status = Status::key("batch_nothing_selected");
            return;
        }
        if batch_has_external_dependents(self.store.hosts.as_slice(), &self.batch_selected) {
            self.status = Status::key("chain_in_use");
            return;
        }
        self.batch_delete_prompt = true;
    }

    pub fn request_batch_export(&mut self)
        ensures
            final(self)@ == if old(self)@.batch_selected.len() == 0 {
                old(self)@.says(StatusModel::key("batch_nothing_selected"@))
            } else {
                AppModel { batch_export_window_open: true, ..old(self)@ }
            },
    {
        if self.batch_selected.len() == 0 {
            self.status = Status::key("batch_nothing_selected");
            return;
        }
        self.batch_export_window_open = true;
    }

    /// Takes in how the export went: the file that was written, or why there is none.
    pub fn finish_batch_export(&mut self, result: Result<String, String>)
        ensures
            final(self)@ == match result {
                Ok(path) => AppModel {
                    status: StatusModel::format("batch_export_succeeded"@, "path"@, path@),
                    batch_export_window_open: false,
                    batch_mode: false,
                    batch_selected: Seq::empty(),
                    ..old(self)@
                },
                Err(error) => old(self)@.says(
                    StatusModel::format("batch_export_failed"@, "error"@, error@),
                ),
            },
    {
        match result {
            Ok(path) => {
                self.status = Status::format("batch_export_succeeded", "path", path);
                self.batch_export_window_open = false;
                self.batch_mode = false;
                self.batch_selected = Vec::new();
            },
            Err(error) => {
                self.status = Status::format("batch_export_failed", "error", error);
            },
        }
    }

    /// Takes in that hosts were imported and saved. The first of them is shown, and where the
    /// file held secrets the user is asked whether to delete it.
    pub fn hosts_imported(
        &mut self,
        profiles: Vec<HostProfile>,
        contains_sensitive_values: bool,
        path: String,
        lookups: Lookups,
    )
        ensures
            final(self)@ == old(self)@.imported(
                models(profiles@),
                contains_sensitive_values,
                path@,
                lookups,
            ),
    {
        let ghost added = models(profiles@);
        let count: usize = profiles.len();
        let first = if profiles.len() > 0 {
            assert(added[0] == profiles@[0]@);
            Some(profiles[0].id)
        } else {
            None
        };
        let mut more = profiles;
        self.store.hosts.append(&mut more);
        assert(models(self.store.hosts@) =~= old(self)@.store.hosts + added);
        if let Some(id) = first {
            self.select(id, lookups);
            self.scroll_to_selected = true;
        }
        self.import_window_open = false;
        if contains_sensitive_values {
            self.status = Status::format(
                "import_succeeded_with_credentials",
                "count",
                decimal_string(count as u64),
            );
            self.import_cleanup_prompt = Some(ImportCleanupPrompt { path, imported_count: count });
        } else {
            self.status = Status::format("import_succeeded", "count", decimal_string(count as u64));
        }
        assert(self@ =~= old(self)@.imported(added, contains_sensitive_values, path@, lookups));
    }

    /// Takes in what the icon in the notification area reported.
    pub fn tray_events(&mut self, events: &Vec<Event>) -> (r: TrayEffects)
        ensures
            r.restore == (heard(events@, Event::Open) || heard(events@, Event::Secrets) || heard(
                events@,
                Event::Unavailable,
            )),
            r.open_secrets == heard(events@, Event::Secrets),
            r.close == heard(events@, Event::Exit),
            final(self)@ == (AppModel {
                exiting: old(self)@.exiting || heard(events@, Event::Exit),
                tray_available: old(self)@.tray_available && !heard(events@, Event::Unavailable),
                ..old(self)@
            }),
    {
        let secrets = holds_event(events, Event::Secrets);
        let exit = holds_event(events, Event::Exit);
        let gone = holds_event(events, Event::Unavailable);
        let open = holds_event(events, Event::Open);
        if exit {
            self.exiting = true;
        }
        if gone {
            self.tray_available = false;
        }
        TrayEffects { restore: open || secrets || gone, open_secrets: secrets, close: exit }
    }

    /// Brings the window back, if it was asked for and is not about to close. Whether it is to be
    /// shown is returned.
    pub fn restore_window(&mut self, restore: bool) -> (r: bool)
        ensures
            r == (restore && !old(self)@.exiting),
            final(self)@ == if r {
                AppModel { host_refresh_pending: true, hidden: false, ..old(self)@ }
            } else {
                old(self)@
            },
    {
        if restore && !self.exiting {
            self.host_refresh_pending = true;
            self.hidden = false;
            true
        } else {
            false
        }
    }

    /// Whether the store is to be read again now. While tests run that waits.
    pub fn take_refresh(&mut self) -> (r: bool)
        ensures
            r == (old(self)@.host_refresh_pending && old(self)@.board.idle()
                && !old(self)@.board.testing_all),
            final(self)@ == if r {
                AppModel { host_refresh_pending: false, ..old(self)@ }
            } else {
                old(self)@
            },
    {
        if self.host_refresh_pending && self.board.tests_idle() && !self.board.testing_all {
            self.host_refresh_pending = false;
            true
        } else {
            false
        }
    }

    /// What becomes of a request to close the window.
    pub fn close_requested(&mut self, requested: bool, restoring: bool) -> (r: CloseStep)
        ensures
            ({
                let before = old(self)@;
                let hides = requested && !before.launch.codex_edit && !before.exiting
                    && !before.hidden && !restoring;
                if !hides {
                    r == CloseStep::Nothing && final(self)@ == before
                } else if before.tray_available {
                    r == CloseStep::Hide && final(self)@ == (AppModel { hidden: true, ..before })
                } else {
                    r == CloseStep::Stay && final(self)@ == before.says(
                        StatusModel::key("tray_unavailable"@),
                    )
                }
            }),
    {
        if !should_hide_to_tray(
            requested,
            self.launch.codex_edit,
            self.exiting,
            self.hidden,
            restoring,
        ) {
            return CloseStep::Nothing;
        }
        if self.tray_available {
            self.hidden = true;
            CloseStep::Hide
        } else {
            self.status = Status::key("tray_unavailable");
            CloseStep::Stay
        }
    }
}

fn holds_event(events: &Vec<Event>, event: Event) -> (r: bool)
    ensures
        r == heard(events@, event),
{
    let mut i: usize = 0;
    while i < events.len()
        invariant
            i <= events@.len(),
            forall|j: int| 0 <= j < i ==> events@[j] != event,
        decreases events@.len() - i,
    {
        if events[i] == event {
            return true;
        }
        i = i + 1;
    }
    false
}

fn trust_in_store(store: &HostStore, at: usize, prompt: &FingerprintPrompt) -> (r: HostStore)
    requires
        at < store@.hosts.len(),
        at == index_of_id(store@.hosts, prompt.host_id),
    ensures
        r@ == with_host(
            store@,
            prompt.host_id,
            trusting(store@.hosts[at as int], prompt@.observed, prompt@.observed_algorithm),
        ),
{
    let mut updated = store.clone();
    let mut host = store.hosts[at].clone();
    trust_host_key(&mut host, prompt.observed.as_str(), &prompt.observed_algorithm);
    let ghost trusted = host@;
    updated.hosts.set(at, host);
    assert(models(updated.hosts@) =~= store@.hosts.update(at as int, trusted));
    updated
}

/// What follows from trusting a key: a report where someone waits for it, or another test.
pub open spec fn follows(app: AppModel, prompt: PromptModel, step: TrustStep) -> bool {
    match step {
        TrustStep::Report(flush) => prompt.close_after_choice && is_flush(
            app.callback.decided("trusted"@, Some(prompt.alias)),
            flush,
        ),
        TrustStep::Retry(id) => !prompt.close_after_choice && prompt.retry_test && id
            == prompt.host_id,
        TrustStep::Nothing => !prompt.close_after_choice && !prompt.retry_test,
    }
}

/// A refusal is reported where someone waits for it.
pub open spec fn refuses(app: AppModel, prompt: PromptModel, step: FingerprintStep) -> bool {
    match step {
        FingerprintStep::Report { flush, prompt: asked } => prompt.close_after_choice && is_flush(
            app.callback.decided("cancelled"@, Some(prompt.alias)),
            flush,
        ) && asked@ == prompt,
        FingerprintStep::Nothing => !prompt.close_after_choice,
        FingerprintStep::Save { .. } => false,
    }
}

/// A key that is trusted is saved with its host.
pub open spec fn accepts(app: AppModel, prompt: PromptModel, step: FingerprintStep) -> bool {
    match step {
        FingerprintStep::Save { updated, prompt: asked } => host_with_id(
            app.store.hosts,
            prompt.host_id,
        ) is Some && updated@ == with_host(
            app.store,
            prompt.host_id,
            trusting(
                host_with_id(app.store.hosts, prompt.host_id)->0,
                prompt.observed,
                prompt.observed_algorithm,
            ),
        ) && asked@ == prompt,
        FingerprintStep::Nothing => host_with_id(app.store.hosts, prompt.host_id) is None,
        FingerprintStep::Report { .. } => false,
    }
}

/// Whoever asks for the window while it is on its way to be hidden finds it, and an explicit
/// exit is not turned into hiding.
pub proof fn a_stale_close_hides_nothing(
    requested: bool,
    codex_edit: bool,
    exiting: bool,
    hidden: bool,
    restoring: bool,
)
    requires
        restoring || exiting,
    ensures
        !(requested && !codex_edit && !exiting && !hidden && !restoring),
{
}

/// Saving a host or trusting its key leaves every other host as it was.
pub proof fn other_hosts_are_unchanged(
    store: StoreModel,
    id: Id,
    profile: ProfileModel,
    i: int,
)
    requires
        host_with_id(store.hosts, id) is Some,
        0 <= i < store.hosts.len(),
        i != index_of_id(store.hosts, id),
    ensures
        with_host(store, id, profile).hosts.len() == store.hosts.len(),
        with_host(store, id, profile).hosts[i] == store.hosts[i],
{
    crate::trust::lemma_index_bounds(store.hosts, id);
}

/// A key that the user trusts is stored with the host that was asked about, and with no other.
pub proof fn accepted_keys_are_stored(
    app: AppModel,
    prompt: PromptModel,
    updated: HostStore,
    asked: FingerprintPrompt,
    i: int,
)
    requires
        accepts(app, prompt, FingerprintStep::Save { updated, prompt: asked }),
        0 <= i < app.store.hosts.len(),
    ensures
        updated@.hosts.len() == app.store.hosts.len(),
        i == index_of_id(app.store.hosts, prompt.host_id) ==> {
            &&& updated@.hosts[i].host_fingerprint == Some(prompt.observed)
            &&& updated@.hosts[i].host_key_algorithm == prompt.observed_algorithm
            &&& updated@.hosts[i].address == app.store.hosts[i].address
            &&& updated@.hosts[i].id == app.store.hosts[i].id
            &&& !updated@.hosts[i].verified
        },
        i != index_of_id(app.store.hosts, prompt.host_id) ==> updated@.hosts[i]
            == app.store.hosts[i],
        asked@ == prompt,
{
    crate::trust::lemma_index_bounds(app.store.hosts, prompt.host_id);
}

/// A key that the user refuses changes no host; whoever waits for the answer is told so.
pub proof fn refused_keys_change_nothing(app: AppModel, prompt: PromptModel, step: FingerprintStep)
    requires
        refuses(app, prompt, step),
    ensures
        !(step is Save),
        app.key_refused(prompt).store == app.store,
        app.key_refused(prompt).editor == app.editor,
        prompt.close_after_choice <==> step is Report,
        prompt.close_after_choice && !app.callback.written && app.callback.pending is None
            && app.callback.result_path is Some ==> app.key_refused(prompt).callback.pending
            == Some(crate::callback::ReportModel {
            status: "cancelled"@,
            alias: Some(prompt.alias),
        }),
{
}

/// The form shows the key once it is trusted, where it is the form of that host, and keeps what
/// the user typed.
pub proof fn forms_show_trusted_keys(
    app: AppModel,
    updated: StoreModel,
    prompt: PromptModel,
    editor: EditorModel,
)
    requires
        app.editor == Some(editor),
    ensures
        app.trusted(updated, prompt).store == updated,
        editor.profile.id == prompt.host_id ==> {
            let shown = app.trusted(updated, prompt).editor;
            &&& shown is Some
            &&& shown->0.profile.host_fingerprint == Some(prompt.observed)
            &&& shown->0.original.host_fingerprint == Some(prompt.observed)
            &&& shown->0.profile.address == editor.profile.address
            &&& shown->0.profile.username == editor.profile.username
        },
        editor.profile.id != prompt.host_id ==> app.trusted(updated, prompt).editor == app.editor,
{
}

/// Trusting a key is followed by the report that someone waits for, or by the test that asked.
pub proof fn trust_is_followed_up(app: AppModel, prompt: PromptModel, step: TrustStep)
    requires
        follows(app, prompt, step),
    ensures
        step is Report <==> prompt.close_after_choice,
        step is Retry <==> prompt.retry_test && !prompt.close_after_choice,
        step matches TrustStep::Retry(id) ==> id == prompt.host_id,
        prompt.close_after_choice && !app.callback.written && app.callback.result_path is Some
            ==> app.trust_followed(prompt).callback.pending == Some(
            crate::callback::ReportModel { status: "trusted"@, alias: Some(prompt.alias) },
        ),
        app.trust_followed(prompt).store == app.store,
{
    crate::callback::outcomes_are_reported(app.callback, "trusted"@, Some(prompt.alias));
}

/// Removed hosts are gone and the others stay; the first of them is shown.
pub proof fn removed_hosts_are_gone(
    app: AppModel,
    ids: Seq<Id>,
    lookups: Lookups,
    host: ProfileModel,
)
    ensures
        app.removed(ids, lookups).store.hosts.contains(host) <==> app.store.hosts.contains(host)
            && !ids.contains(host.id),
        app.removed(ids, lookups).store.hosts.len() > 0 ==> app.removed(ids, lookups).selected
            == Some(app.removed(ids, lookups).store.hosts[0].id),
        app.removed(ids, lookups).store.hosts.len() == 0 ==> app.removed(ids, lookups).selected
            is None && app.removed(ids, lookups).editor is None,
        app.removed(ids, lookups).batch_over().batch_selected.len() == 0,
        !app.removed(ids, lookups).batch_over().batch_mode,
{
    crate::removal::other_hosts_are_left(app.store.hosts, ids, host);
}

/// Imported hosts stand behind those that were there, and the first of them is shown; whether the
/// file should be removed is asked where it held secrets.
pub proof fn imported_hosts_are_added(
    app: AppModel,
    profiles: Seq<ProfileModel>,
    sensitive: bool,
    path: Seq<char>,
    lookups: Lookups,
    i: int,
)
    ensures
        ({
            let after = app.imported(profiles, sensitive, path, lookups);
            &&& after.store.hosts.len() == app.store.hosts.len() + profiles.len()
            &&& 0 <= i < app.store.hosts.len() ==> after.store.hosts[i] == app.store.hosts[i]
            &&& 0 <= i < profiles.len() ==> after.store.hosts[app.store.hosts.len() + i]
                == profiles[i]
            &&& profiles.len() > 0 ==> after.selected == Some(profiles[0].id)
            &&& profiles.len() == 0 ==> after.selected == app.selected && after.editor == app.editor
            &&& !after.import_window_open
            &&& sensitive ==> after.import_cleanup_prompt is Some
                && after.import_cleanup_prompt->0.path == path
            &&& !sensitive ==> after.import_cleanup_prompt == app.import_cleanup_prompt
        }),
{
}

/// An imported host brings the secret that its way of logging in uses, and none for an agent.
pub proof fn imported_secrets_fit_the_login(item: ImportedHost)
    ensures
        item.profile.protocol == crate::model::Protocol::Ssh && item.profile.ssh_auth
            == crate::model::SshAuth::SshAgent ==> secret_of(item) is None,
        item.profile.protocol == crate::model::Protocol::Ssh && item.profile.ssh_auth
            == crate::model::SshAuth::PrivateKey && item.key_passphrase@.len() > 0 ==> secret_of(
            item,
        ) == Some((CredentialKind::KeyPassphrase, item.key_passphrase@)),
        (item.profile.protocol == crate::model::Protocol::Telnet || item.profile.ssh_auth
            == crate::model::SshAuth::Password) && item.password@.len() > 0 ==> secret_of(item)
            == Some((CredentialKind::Password, item.password@)),
        item.password@.len() == 0 && item.key_passphrase@.len() == 0 ==> secret_of(item) is None,
{
}

/// Every host that brings a secret has it written, under its own identity and once.
pub proof fn every_brought_secret_is_written(
    items: Seq<ImportedHost>,
    writes: Seq<SecretWrite>,
    i: int,
)
    requires
        all_written(items, bringing(items), writes),
        0 <= i < items.len(),
    ensures
        secret_of(items[i]) is Some <==> bringing(items).contains(i),
        secret_of(items[i]) matches Some((kind, secret)) ==> exists|k: int|
            0 <= k < writes.len() && (#[trigger] writes[k]).id == items[i].profile.id
                && writes[k].kind == kind && writes[k].secret@ == secret,
        writes.len() <= items.len(),
{
    lemma_bringing(items, i);
    if secret_of(items[i]) is Some {
        let k = choose|k: int| 0 <= k < bringing(items).len() && bringing(items)[k] == i;
        assert(writes_secret(items[bringing(items)[k]], writes[k]));
    }
}

proof fn lemma_bringing(items: Seq<ImportedHost>, i: int)
    requires
        0 <= i < items.len(),
    ensures
        bringing(items).contains(i) <==> secret_of(items[i]) is Some,
        bringing(items).len() <= items.len(),
        forall|k: int| 0 <= k < bringing(items).len() ==> 0 <= (#[trigger] bringing(items)[k])
            < items.len(),
    decreases items.len(),
{
    let short = items.drop_last();
    let before = bringing(short);
    let all = bringing(items);
    let last = items.len() - 1;
    if short.len() > 0 {
        lemma_bringing(short, if i < short.len() {
            i
        } else {
            0
        });
    }
    assert(forall|k: int| 0 <= k < before.len() ==> 0 <= (#[trigger] before[k]) < last);
    if i < last {
        assert(short[i] == items[i]);
        if before.contains(i) {
            let k = choose|k: int| 0 <= k < before.len() && before[k] == i;
            assert(all[k] == i);
        }
        if all.contains(i) {
            let k = choose|k: int| 0 <= k < all.len() && all[k] == i;
            assert(before[k] == i);
        }
    } else {
        if secret_of(items[i]) is Some {
            assert(all[before.len() as int] == i);
        } else {
            assert(all == before);
        }
    }
}

/// A new host gets a numbered name that no host has, whatever the case of its letters.
pub proof fn new_names_are_free(hosts: Seq<ProfileModel>, alias: Seq<char>, i: int)
    requires
        is_neutral(hosts, alias),
        0 <= i < hosts.len(),
    ensures
        !crate::text::same_ignoring_case(hosts[i].alias, alias),
        exists|n: nat| n >= 1 && alias == "host-"@ + #[trigger] decimal(n),
{
    let n = choose|n: nat|
        n >= 1 && alias == #[trigger] neutral_name(n) && !name_taken(hosts, n) && forall|k: nat|
            1 <= k < n ==> #[trigger] name_taken(hosts, k);
    assert(alias == "host-"@ + decimal(n));
}

} // verus!
