//! The window of the hosts: what it shows, and what becomes of the user's choices.
use vstd::prelude::*;

use crate::args::{LaunchOptions, OptionsModel};
use crate::callback::{Callback, CallbackModel};
use crate::credentials::CredentialKind;
use crate::editor::{labels, EditorModel, HostEditor, Lookups};
use crate::id::Id;
use crate::message::{Message, MessageModel, Status, StatusModel};
use crate::model::{
    find_id, host_with_id, index_of_id, models, AuthPersistence, HostFilter, HostProfile,
    ProfileModel, Protocol,
};
use crate::probes::{entries_without, BoardModel, TestBoard};
use crate::secret::Secret;
use crate::selection::{kept_ids, retain_ids};
use crate::storage::{HostStore, StoreModel};
use crate::text::{
    copy_optional, decimal, decimal_string, eq_ignore_case, optional_text, same_ignoring_case,
    same_optional, trim, trimmed,
};

verus! {

/// What waits for the confirmation of a change of persistence.
#[derive(Debug, Clone, Copy, PartialEq, Eq, Structural)]
pub enum PendingAction {
    Save,
    Test,
    TestAll,
}

/// The question whether persistence may change.
#[derive(Debug)]
pub struct PersistencePrompt {
    pub alias: String,
    pub from: AuthPersistence,
    pub to: AuthPersistence,
    pub next: PendingAction,
}

pub struct PersistenceModel {
    pub alias: Seq<char>,
    pub from: AuthPersistence,
    pub to: AuthPersistence,
    pub next: PendingAction,
}

pub open spec fn persistence_model(prompt: Option<PersistencePrompt>) -> Option<PersistenceModel> {
    match prompt {
        Some(prompt) => Some(
            PersistenceModel {
                alias: prompt.alias@,
                from: prompt.from,
                to: prompt.to,
                next: prompt.next,
            },
        ),
        None => None,
    }
}

/// The question whether a host key is to be trusted.
#[derive(Debug)]
pub struct FingerprintPrompt {
    pub host_id: Id,
    pub alias: String,
    pub expected: Option<String>,
    pub observed: String,
    pub expected_algorithm: Option<String>,
    pub observed_algorithm: Option<String>,
    pub retry_test: bool,
    pub close_after_choice: bool,
}

#[verifier::ext_equal]
pub struct PromptModel {
    pub host_id: Id,
    pub alias: Seq<char>,
    pub expected: Option<Seq<char>>,
    pub observed: Seq<char>,
    pub expected_algorithm: Option<Seq<char>>,
    pub observed_algorithm: Option<Seq<char>>,
    pub retry_test: bool,
    pub close_after_choice: bool,
}

impl View for FingerprintPrompt {
    type V = PromptModel;

    open spec fn view(&self) -> PromptModel {
        PromptModel {
            host_id: self.host_id,
            alias: self.alias@,
            expected: optional_text(self.expected),
            observed: self.observed@,
            expected_algorithm: optional_text(self.expected_algorithm),
            observed_algorithm: optional_text(self.observed_algorithm),
            retry_test: self.retry_test,
            close_after_choice: self.close_after_choice,
        }
    }
}

pub open spec fn prompt_model(prompt: Option<FingerprintPrompt>) -> Option<PromptModel> {
    match prompt {
        Some(prompt) => Some(prompt@),
        None => None,
    }
}

pub open spec fn editor_model(editor: Option<HostEditor>) -> Option<EditorModel> {
    match editor {
        Some(editor) => Some(editor@),
        None => None,
    }
}

/// The question whether a file with secrets that were imported is to be deleted.
#[derive(Debug)]
pub struct ImportCleanupPrompt {
    pub path: String,
    pub imported_count: usize,
}

pub struct CleanupModel {
    pub path: Seq<char>,
    pub imported_count: usize,
}

pub open spec fn cleanup_model(prompt: Option<ImportCleanupPrompt>) -> Option<CleanupModel> {
    match prompt {
        Some(prompt) => Some(
            CleanupModel { path: prompt.path@, imported_count: prompt.imported_count },
        ),
        None => None,
    }
}

pub struct HostsApp {
    pub exiting: bool,
    pub hidden: bool,
    pub tray_available: bool,
    pub host_refresh_pending: bool,
    pub store: HostStore,
    pub selected: Option<Id>,
    pub editor: Option<HostEditor>,
    pub status: Status,
    pub board: TestBoard,
    pub fingerprint_prompt: Option<FingerprintPrompt>,
    pub delete_prompt: bool,
    pub persistence_prompt: Option<PersistencePrompt>,
    pub import_window_open: bool,
    pub import_cleanup_prompt: Option<ImportCleanupPrompt>,
    pub batch_mode: bool,
    pub batch_selected: Vec<Id>,
    pub host_filter: HostFilter,
    pub batch_delete_prompt: bool,
    pub batch_export_window_open: bool,
    /// The list is scrolled so that the selected host is visible.
    pub scroll_to_selected: bool,
    pub launch: LaunchOptions,
    pub callback: Callback,
}

#[verifier::ext_equal]
pub struct AppModel {
    pub exiting: bool,
    pub hidden: bool,
    pub tray_available: bool,
    pub host_refresh_pending: bool,
    pub store: StoreModel,
    pub selected: Option<Id>,
    pub editor: Option<EditorModel>,
    pub status: StatusModel,
    pub board: BoardModel,
    pub fingerprint_prompt: Option<PromptModel>,
    pub delete_prompt: bool,
    pub persistence_prompt: Option<PersistenceModel>,
    pub import_window_open: bool,
    pub import_cleanup_prompt: Option<CleanupModel>,
    pub batch_mode: bool,
    pub batch_selected: Seq<Id>,
    pub host_filter: HostFilter,
    pub batch_delete_prompt: bool,
    pub batch_export_window_open: bool,
    pub scroll_to_selected: bool,
    pub launch: OptionsModel,
    pub callback: CallbackModel,
}

impl View for HostsApp {
    type V = AppModel;

    open spec fn view(&self) -> AppModel {
        AppModel {
            exiting: self.exiting,
            hidden: self.hidden,
            tray_available: self.tray_available,
            host_refresh_pending: self.host_refresh_pending,
            store: self.store@,
            selected: self.selected,
            editor: editor_model(self.editor),
            status: self.status@,
            board: self.board@,
            fingerprint_prompt: prompt_model(self.fingerprint_prompt),
            delete_prompt: self.delete_prompt,
            persistence_prompt: persistence_model(self.persistence_prompt),
            import_window_open: self.import_window_open,
            import_cleanup_prompt: cleanup_model(self.import_cleanup_prompt),
            batch_mode: self.batch_mode,
            batch_selected: self.batch_selected@,
            host_filter: self.host_filter,
            batch_delete_prompt: self.batch_delete_prompt,
            batch_export_window_open: self.batch_export_window_open,
            scroll_to_selected: self.scroll_to_selected,
            launch: self.launch@,
            callback: self.callback@,
        }
    }
}

/// The form of the host with an identity, if there is such a host.
pub open spec fn form_of(hosts: Seq<ProfileModel>, id: Id, lookups: Lookups) -> Option<
    EditorModel,
> {
    match host_with_id(hosts, id) {
        Some(profile) => Some(EditorModel::loaded(profile, lookups)),
        None => None,
    }
}

fn open_form(hosts: &[HostProfile], id: Id, lookups: Lookups) -> (r: Option<HostEditor>)
    ensures
        editor_model(r) == form_of(models(hosts@), id, lookups),
{
    match find_id(hosts, id) {
        Some(at) => {
            assert(models(hosts@)[at as int] == hosts@[at as int]@);
            Some(HostEditor::load(hosts[at].clone(), lookups))
        },
        None => None,
    }
}

/// The host that is shown next: the selected one if it is still there, else the first.
pub open spec fn next_shown(hosts: Seq<ProfileModel>, selected: Option<Id>) -> Option<Id> {
    if selected is Some && host_with_id(hosts, selected->0) is Some {
        selected
    } else if hosts.len() > 0 {
        Some(hosts[0].id)
    } else {
        None
    }
}

/// The form holds something that is not saved.
pub open spec fn is_dirty(editor: Option<EditorModel>) -> bool {
    editor is Some && editor->0.unsaved()
}

fn has_draft(editor: &Option<HostEditor>) -> (r: bool)
    ensures
        r == is_dirty(editor_model(*editor)),
{
    match editor {
        Some(editor) => editor.has_unsaved_changes(),
        None => false,
    }
}

fn find_shown(hosts: &[HostProfile], selected: Option<Id>) -> (r: Option<Id>)
    ensures
        r == next_shown(models(hosts@), selected),
{
    if let Some(id) = selected {
        if let Some(at) = find_id(hosts, id) {
            return Some(id);
        }
    }
    if hosts.len() > 0 {
        assert(models(hosts@)[0] == hosts@[0]@);
        Some(hosts[0].id)
    } else {
        None
    }
}

/// The host whose stored secrets have to be looked up before the store is replaced, if any.
pub fn host_to_load(editor: &Option<HostEditor>, selected: Option<Id>, store: &HostStore) -> (r:
    Option<Id>)
    ensures
        r == if is_dirty(editor_model(*editor)) {
            None
        } else {
            next_shown(store@.hosts, selected)
        },
{
    if has_draft(editor) {
        None
    } else {
        find_shown(store.hosts.as_slice(), selected)
    }
}

/// Brings the form up to date with a store. A draft is kept; saving it is refused later if the
/// host was changed elsewhere.
pub fn reconcile_host_editor(
    editor: &mut Option<HostEditor>,
    selected: &mut Option<Id>,
    store: &HostStore,
    lookups: Lookups,
)
    ensures
        is_dirty(editor_model(*old(editor))) ==> *final(editor) == *old(editor) && *final(selected)
            == *old(selected),
        !is_dirty(editor_model(*old(editor))) ==> {
            let shown = next_shown(store@.hosts, *old(selected));
            &&& *final(selected) == shown
            &&& editor_model(*final(editor)) == match shown {
                Some(id) => form_of(store@.hosts, id, lookups),
                None => None,
            }
        },
{
    if has_draft(editor) {
        return;
    }
    let shown = find_shown(store.hosts.as_slice(), *selected);
    *selected = shown;
    *editor = match shown {
        Some(id) => open_form(store.hosts.as_slice(), id, lookups),
        None => None,
    };
}

fn same_hosts(a: &[HostProfile], b: &[HostProfile]) -> (r: bool)
    ensures
        r == (models(a@) == models(b@)),
{
    if a.len() != b.len() {
        assert(models(a@).len() != models(b@).len());
        return false;
    }
    let mut i: usize = 0;
    while i < a.len()
        invariant
            i <= a@.len() == b@.len(),
            forall|j: int| 0 <= j < i ==> models(a@)[j] == models(b@)[j],
        decreases a@.len() - i,
    {
        if !a[i].same(&b[i]) {
            assert(models(a@)[i as int] != models(b@)[i as int]);
            return false;
        }
        i = i + 1;
    }
    assert(models(a@) =~= models(b@));
    true
}

/// Both stores hold the same hosts and settings.
pub open spec fn same_revision(a: StoreModel, b: StoreModel) -> bool {
    a.hosts == b.hosts && a.preferred_locale == b.preferred_locale
}

/// The window is hidden rather than closed.
pub fn should_hide_to_tray(
    close_requested: bool,
    codex_edit: bool,
    exiting: bool,
    hidden: bool,
    restoring: bool,
) -> (r: bool)
    ensures
        r == (close_requested && !codex_edit && !exiting && !hidden && !restoring),
{
    close_requested && !codex_edit && !exiting && !hidden && !restoring
}

/// What the user is told to correct in a form whose fields are filled in, in the order in which
/// it is looked for.
pub open spec fn value_objection(editor: EditorModel, hosts: Seq<ProfileModel>) -> Option<
    MessageModel,
> {
    if editor.profile.issue() is Some {
        Some(MessageModel::text(editor.profile.issue()->0.key()))
    } else if alias_of_another(hosts, editor.profile.id, trimmed(editor.profile.alias)) {
        Some(MessageModel::text("validation_alias"@))
    } else if editor.lacks_password() {
        match editor.password_read_error {
            Some(error) => Some(MessageModel::about("credential_error"@, "error"@, error)),
            None => Some(MessageModel::text("password_required"@)),
        }
    } else if host_with_id(hosts, editor.profile.id) is None {
        Some(MessageModel::Plain("HOST_NOT_FOUND"@))
    } else {
        None
    }
}

/// What the user is told to correct in a form before its host can be saved.
pub open spec fn form_objection(editor: EditorModel, hosts: Seq<ProfileModel>) -> Option<
    MessageModel,
> {
    if !hosts.contains(editor.original) {
        Some(MessageModel::text("host_changed"@))
    } else if editor.missing().len() > 0 {
        Some(
            MessageModel::about(
                "validation_required_count"@,
                "count"@,
                decimal(editor.missing().len()),
            ),
        )
    } else {
        value_objection(editor, hosts)
    }
}

/// What the user is told to correct before a host can be saved.
pub open spec fn save_objection(app: AppModel) -> Option<MessageModel> {
    match app.editor {
        None => Some(MessageModel::Plain("NO_EDITOR"@)),
        Some(editor) => form_objection(editor, app.store.hosts),
    }
}

fn find_objection(editor: &HostEditor, hosts: &[HostProfile]) -> (r: Option<Message>)
    ensures
        match (r, value_objection(editor@, models(hosts@))) {
            (Some(found), Some(wanted)) => found@ == wanted,
            (None, None) => true,
            _ => false,
        },
{
    if let Some(issue) = editor.profile.validation_issue() {
        return Some(Message::text(issue.translation_key()));
    }
    if alias_belongs_to_another(hosts, editor.profile.id, trim(editor.profile.alias.as_str())) {
        return Some(Message::text("validation_alias"));
    }
    if editor.password_value_missing() {
        return Some(
            match copy_optional(&editor.password_read_error) {
                Some(error) => Message::about("credential_error", "error", error),
                None => Message::text("password_required"),
            },
        );
    }
    match find_id(hosts, editor.profile.id) {
        Some(_) => None,
        None => Some(Message::Plain("HOST_NOT_FOUND".to_owned())),
    }
}

fn make_plan(editor: &HostEditor, store: &HostStore) -> (r: SavePlan)
    requires
        host_with_id(store@.hosts, editor@.profile.id) is Some,
    ensures
        is_plan(r, store@, editor@),
{
    let id = editor.profile.id;
    let profile = editor.profile_to_save();
    let mut updated = store.clone();
    if let Some(at) = find_id(updated.hosts.as_slice(), id) {
        updated.hosts.set(at, profile.clone());
        assert(models(updated.hosts@) =~= store@.hosts.update(at as int, profile@));
    }
    SavePlan {
        id,
        invalidate: editor.test_result_is_stale(),
        credential: editor.credential_update(),
        profile,
        updated,
    }
}

/// Looks a form over before its host is saved.
fn look_over(editor: &mut HostEditor, store: &HostStore) -> (r: Result<SavePlan, Message>)
    ensures
        match r {
            Ok(plan) => form_objection(old(editor)@, store@.hosts) is None && is_plan(
                plan,
                store@,
                old(editor)@,
            ),
            Err(message) => form_objection(old(editor)@, store@.hosts) == Some(message@),
        },
        final(editor)@ == if store@.hosts.contains(old(editor)@.original) {
            marked(old(editor)@)
        } else {
            old(editor)@
        },
{
    if !editor.matches_stored_original(store) {
        return Err(Message::text("host_changed"));
    }
    let missing = editor.missing_required_fields();
    assert(labels(missing@).len() == missing@.len());
    if missing.len() > 0 {
        editor.show_required = true;
        editor.focus_first_missing = true;
        return Err(
            Message::about(
                "validation_required_count",
                "count",
                decimal_string(missing.len() as u64),
            ),
        );
    }
    let ghost before = editor@;
    editor.show_required = false;
    assert(editor@ =~= marked(before));
    assert(editor@.update() == before.update());
    assert(editor@.tidied() == before.tidied());
    match find_objection(editor, store.hosts.as_slice()) {
        Some(message) => Err(message),
        None => Ok(make_plan(editor, store)),
    }
}

/// Another host carries the alias.
pub open spec fn alias_of_another(hosts: Seq<ProfileModel>, id: Id, alias: Seq<char>) -> bool {
    exists|i: int|
        0 <= i < hosts.len() && (#[trigger] hosts[i]).id != id && same_ignoring_case(
            hosts[i].alias,
            alias,
        )
}

fn alias_belongs_to_another(hosts: &[HostProfile], id: Id, alias: &str) -> (r: bool)
    ensures
        r == alias_of_another(models(hosts@), id, alias@),
{
    let ghost all = models(hosts@);
    let mut i: usize = 0;
    while i < hosts.len()
        invariant
            i <= hosts@.len(),
            all == models(hosts@),
            forall|j: int|
                0 <= j < i ==> !((#[trigger] all[j]).id != id && same_ignoring_case(
                    all[j].alias,
                    alias@,
                )),
        decreases hosts@.len() - i,
    {
        if hosts[i].id != id && eq_ignore_case(hosts[i].alias.as_str(), alias) {
            assert(all[i as int] == hosts@[i as int]@);
            return true;
        }
        i = i + 1;
    }
    false
}

/// The form once saving looked for missing fields.
pub open spec fn marked(editor: EditorModel) -> EditorModel {
    if editor.missing().len() > 0 {
        EditorModel { show_required: true, focus_first_missing: true, ..editor }
    } else {
        EditorModel { show_required: false, ..editor }
    }
}

/// Everything that saving a host writes.
pub struct SavePlan {
    pub id: Id,
    pub profile: HostProfile,
    pub updated: HostStore,
    pub credential: Option<(CredentialKind, Secret)>,
    /// What earlier tests found, and connections that are kept, are no longer valid.
    pub invalidate: bool,
}

/// The store with one host replaced.
pub open spec fn with_host(store: StoreModel, id: Id, profile: ProfileModel) -> StoreModel {
    StoreModel { hosts: store.hosts.update(index_of_id(store.hosts, id), profile), ..store }
}

/// The plan writes what the form holds.
pub open spec fn is_plan(plan: SavePlan, store: StoreModel, editor: EditorModel) -> bool {
    &&& plan.id == editor.profile.id
    &&& plan.profile@ == editor.tidied()
    &&& plan.updated@ == with_host(store, editor.profile.id, editor.tidied())
    &&& plan.invalidate == editor.stale()
    &&& match (plan.credential, editor.update()) {
        (Some(found), Some(wanted)) => found.0 == wanted.0 && found.1@ == wanted.1,
        (None, None) => true,
        _ => false,
    }
}

/// A host that was found stands at the position that was looked up.
proof fn lemma_found_host_has_the_id(hosts: Seq<ProfileModel>, id: Id)
    requires
        host_with_id(hosts, id) is Some,
    ensures
        0 <= index_of_id(hosts, id) < hosts.len(),
        hosts[index_of_id(hosts, id)].id == id,
    decreases hosts.len(),
{
    if hosts.len() > 0 && hosts[0].id != id {
        lemma_found_host_has_the_id(hosts.skip(1), id);
    }
}

/// A form is saved only while the store still holds the host as the form was opened on it, so that
/// what was changed elsewhere is not overwritten. Every other host stays as it is.
pub proof fn edits_made_elsewhere_are_not_overwritten(app: AppModel, plan: SavePlan)
    requires
        save_objection(app) is None,
        is_plan(plan, app.store, app.editor->0),
    ensures
        app.store.hosts.contains(app.editor->0.original),
        plan.updated@.hosts.len() == app.store.hosts.len(),
        forall|i: int|
            0 <= i < app.store.hosts.len() && app.store.hosts[i].id != plan.id
                ==> #[trigger] plan.updated@.hosts[i] == app.store.hosts[i],
        plan.updated@.preferred_locale == app.store.preferred_locale,
{
    lemma_found_host_has_the_id(app.store.hosts, app.editor->0.profile.id);
}

impl HostsApp {
    /// Selects a host and opens its form.
    pub fn select(&mut self, id: Id, lookups: Lookups)
        ensures
            final(self)@ == (AppModel {
                selected: Some(id),
                editor: form_of(old(self)@.store.hosts, id, lookups),
                status: StatusModel::key("status_ready"@),
                ..old(self)@
            }),
    {
        self.selected = Some(id);
        self.editor = open_form(self.store.hosts.as_slice(), id, lookups);
        self.status = Status::key("status_ready");
    }

    /// The store was not changed elsewhere.
    pub fn is_current(&self, fresh: &HostStore) -> (r: bool)
        ensures
            r == same_revision(self@.store, fresh@),
    {
        same_hosts(self.store.hosts.as_slice(), fresh.hosts.as_slice()) && same_optional(
            &self.store.preferred_locale,
            &fresh.preferred_locale,
        )
    }

    /// Takes over a store that was read again. What referred to the old one is dropped.
    pub fn refresh_hosts(&mut self, fresh: HostStore, lookups: Lookups)
        ensures
            same_revision(old(self)@.store, fresh@) ==> final(self)@ == old(self)@,
            !same_revision(old(self)@.store, fresh@) ==> final(self)@ == old(self)@.refreshed(
                fresh@,
                lookups,
            ),
    {
        if self.is_current(&fresh) {
            return;
        }
        reconcile_host_editor(&mut self.editor, &mut self.selected, &fresh, lookups);
        let mut known: Vec<Id> = Vec::new();
        let ghost all = fresh@.hosts;
        let mut i: usize = 0;
        while i < fresh.hosts.len()
            invariant
                i <= fresh.hosts@.len(),
                all == models(fresh.hosts@),
                known@ == crate::probes::host_ids(all.take(i as int)),
            decreases fresh.hosts@.len() - i,
        {
            known.push(fresh.hosts[i].id);
            assert(known@ =~= crate::probes::host_ids(all.take(i + 1)));
            i = i + 1;
        }
        assert(all.take(i as int) =~= all);
        self.store = fresh;
        retain_ids(&mut self.batch_selected, &known);
        self.board.states = Vec::new();
        self.fingerprint_prompt = None;
        self.delete_prompt = false;
        self.persistence_prompt = None;
        self.batch_delete_prompt = false;
        self.status = Status::key("hosts_refreshed");
        assert(self@ =~= old(self)@.refreshed(fresh@, lookups));
    }

    /// What saving the host in the form has to write, or why it cannot be saved.
    pub fn plan_save(&mut self) -> (r: Result<SavePlan, Message>)
        ensures
            match r {
                Ok(plan) => save_objection(old(self)@) is None && is_plan(
                    plan,
                    old(self)@.store,
                    old(self)@.editor->0,
                ),
                Err(message) => save_objection(old(self)@) == Some(message@),
            },
            final(self)@ == old(self)@.looked_over(),
    {
        let answer = match &mut self.editor {
            None => Err(Message::Plain("NO_EDITOR".to_owned())),
            Some(editor) => look_over(editor, &self.store),
        };
        assert(self@ =~= old(self)@.looked_over());
        answer
    }

    /// Takes over what was saved. Connections of the host have to be closed if the plan says so.
    pub fn finish_save(&mut self, plan: SavePlan)
        ensures
            final(self)@ == (AppModel {
                store: plan.updated@,
                board: if plan.invalidate {
                    BoardModel {
                        states: entries_without(old(self)@.board.states, plan.id),
                        ..old(self)@.board
                    }
                } else {
                    old(self)@.board
                },
                editor: match old(self)@.editor {
                    Some(editor) => Some(editor.saved(plan.profile@)),
                    None => None,
                },
                ..old(self)@
            }),
    {
        self.store = plan.updated;
        if plan.invalidate {
            self.board.drop_state(plan.id);
        }
        if let Some(editor) = &mut self.editor {
            editor.mark_saved(plan.profile);
        }
    }

    /// Asks the user to confirm a changed persistence, and remembers what to do then. Whether
    /// there was anything to ask is returned.
    pub fn ask_persistence_confirmation(&mut self, next: PendingAction) -> (r: bool)
        ensures
            r == (old(self)@.editor is Some && old(self)@.editor->0.change_to_confirm() is Some),
            final(self)@ == if r {
                let editor = old(self)@.editor->0;
                let change = editor.change_to_confirm()->0;
                AppModel {
                    persistence_prompt: Some(
                        PersistenceModel {
                            alias: trimmed(editor.profile.alias),
                            from: change.0,
                            to: change.1,
                            next,
                        },
                    ),
                    ..old(self)@
                }
            } else {
                old(self)@
            },
    {
        let prompt = match &self.editor {
            None => {
                return false;
            },
            Some(editor) => match editor.persistence_change() {
                None => {
                    return false;
                },
                Some((from, to)) => PersistencePrompt {
                    alias: trim(editor.profile.alias.as_str()).to_owned(),
                    from,
                    to,
                    next,
                },
            },
        };
        self.persistence_prompt = Some(prompt);
        true
    }

    /// Acts on the answer. What was waiting for it is returned, if it may go on.
    pub fn apply_persistence_choice(&mut self, confirm: bool) -> (r: Option<PendingAction>)
        ensures
            final(self)@ == old(self)@.answered(confirm),
            r == if confirm && old(self)@.editor is Some {
                match old(self)@.persistence_prompt {
                    Some(prompt) => Some(prompt.next),
                    None => None,
                }
            } else {
                None
            },
    {
        let prompt = match self.persistence_prompt.take() {
            None => {
                return None;
            },
            Some(prompt) => prompt,
        };
        if self.editor.is_none() {
            return None;
        }
        if let Some(editor) = &mut self.editor {
            editor.answer_persistence(confirm, prompt.to);
        }
        if confirm {
            Some(prompt.next)
        } else {
            self.status = Status::key("status_cancelled");
            None
        }
    }
}

impl AppModel {
    /// The window once a store that was changed elsewhere was taken over.
    pub open spec fn refreshed(self, fresh: StoreModel, lookups: Lookups) -> AppModel {
        let shown = next_shown(fresh.hosts, self.selected);
        AppModel {
            store: fresh,
            selected: if is_dirty(self.editor) {
                self.selected
            } else {
                shown
            },
            editor: if is_dirty(self.editor) {
                self.editor
            } else {
                match shown {
                    Some(id) => form_of(fresh.hosts, id, lookups),
                    None => None,
                }
            },
            batch_selected: kept_ids(self.batch_selected, crate::probes::host_ids(fresh.hosts)),
            board: BoardModel { states: Seq::empty(), ..self.board },
            fingerprint_prompt: None,
            delete_prompt: false,
            persistence_prompt: None,
            batch_delete_prompt: false,
            status: StatusModel::key("hosts_refreshed"@),
            ..self
        }
    }

    /// The window once the form was looked over before saving.
    pub open spec fn looked_over(self) -> AppModel {
        match self.editor {
            Some(editor) => if self.store.hosts.contains(editor.original) {
                AppModel { editor: Some(marked(editor)), ..self }
            } else {
                self
            },
            None => self,
        }
    }

    /// The window once the user answered whether persistence may change.
    pub open spec fn answered(self, confirm: bool) -> AppModel {
        match (self.persistence_prompt, self.editor) {
            (None, _) => self,
            (Some(_), None) => AppModel { persistence_prompt: None, ..self },
            (Some(prompt), Some(editor)) => if confirm {
                AppModel {
                    persistence_prompt: None,
                    editor: Some(editor.persistence_answered(true, prompt.to)),
                    ..self
                }
            } else {
                AppModel {
                    persistence_prompt: None,
                    editor: Some(editor.persistence_answered(false, prompt.to)),
                    status: StatusModel::key("status_cancelled"@),
                    ..self
                }
            },
        }
    }
}

/// An SSH host is not saved before the user chose how long its session is kept; a form of a host
/// that was created just now waits for that choice.
pub proof fn hosts_are_not_saved_without_a_choice(
    app: AppModel,
    profile: ProfileModel,
    lookups: Lookups,
)
    ensures
        app.editor is Some && app.editor->0.profile.protocol == Protocol::Ssh
            && !app.editor->0.persistence_chosen ==> save_objection(app) is Some,
        !EditorModel::created(profile, lookups).persistence_chosen,
        profile.protocol == Protocol::Ssh ==> EditorModel::created(
            profile,
            lookups,
        ).profile.auth_persistence == AuthPersistence::Session,
{
    if app.editor is Some && app.editor->0.lacks_persistence() {
        assert(app.editor->0.missing().len() > 0);
    }
}

/// Saving puts the host of the form, as it was filled in, in the place of the stored one with its
/// identity, and stores the secret that was typed for it.
pub proof fn saving_replaces_the_host(app: AppModel, plan: SavePlan)
    requires
        save_objection(app) is None,
        is_plan(plan, app.store, app.editor->0),
    ensures
        plan.id == app.editor->0.profile.id,
        plan.profile.alias@ == trimmed(app.editor->0.profile.alias),
        plan.profile.address@ == trimmed(app.editor->0.profile.address),
        plan.profile.username@ == trimmed(app.editor->0.profile.username),
        plan.profile.port == app.editor->0.profile.port,
        plan.updated@.hosts.contains(plan.profile@),
        exists|i: int|
            0 <= i < app.store.hosts.len() && (#[trigger] app.store.hosts[i]).id == plan.id
                && plan.updated@.hosts == app.store.hosts.update(i, plan.profile@),
        plan.credential is Some <==> app.editor->0.update() is Some,
        plan.credential matches Some((kind, secret)) ==> app.editor->0.update() == Some(
            (kind, secret@),
        ),
        plan.invalidate == app.editor->0.stale(),
{
    let editor = app.editor->0;
    lemma_found_host_has_the_id(app.store.hosts, editor.profile.id);
    let at = index_of_id(app.store.hosts, editor.profile.id);
    assert(app.store.hosts[at].id == plan.id);
    assert(plan.updated@.hosts[at] == plan.profile@);
    crate::editor::saving_writes_what_the_form_shows(editor);
    assert(plan.profile@.alias == plan.profile.alias@);
}

/// A host is saved unless there is no form, its host was changed elsewhere, a field is missing or
/// wrong, another host has its alias, its password is not known, or it is no longer stored.
pub proof fn sound_forms_are_saved(app: AppModel)
    requires
        app.editor is Some,
    ensures
        ({
            let editor = app.editor->0;
            save_objection(app) is None <==> {
                &&& app.store.hosts.contains(editor.original)
                &&& editor.missing().len() == 0
                &&& editor.profile.issue() is None
                &&& !(exists|i: int|
                    0 <= i < app.store.hosts.len() && (#[trigger] app.store.hosts[i]).id
                        != editor.profile.id && same_ignoring_case(
                        app.store.hosts[i].alias,
                        trimmed(editor.profile.alias),
                    ))
                &&& !editor.lacks_password()
                &&& host_with_id(app.store.hosts, editor.profile.id) is Some
            }
        }),
{
}

/// A store that was changed elsewhere is taken over; a form with something unsaved in it stays open
/// as it is, any other one shows the stored host again.
pub proof fn refreshing_keeps_drafts(app: AppModel, fresh: StoreModel, lookups: Lookups)
    ensures
        app.refreshed(fresh, lookups).store == fresh,
        app.editor is Some && app.editor->0.unsaved() ==> app.refreshed(fresh, lookups).editor
            == app.editor && app.refreshed(fresh, lookups).selected == app.selected,
        app.editor is None && app.selected is Some && host_with_id(
            fresh.hosts,
            app.selected->0,
        ) is Some ==> app.refreshed(fresh, lookups).selected == app.selected,
        app.refreshed(fresh, lookups).fingerprint_prompt is None,
        !app.refreshed(fresh, lookups).delete_prompt,
        forall|i: int|
            0 <= i < app.refreshed(fresh, lookups).batch_selected.len() ==> app.batch_selected.contains(
                #[trigger] app.refreshed(fresh, lookups).batch_selected[i],
            ),
{
    let kept = app.refreshed(fresh, lookups).batch_selected;
    crate::selection::lemma_kept_ids(
        app.batch_selected,
        crate::probes::host_ids(fresh.hosts),
    );
}

/// The host that was shown stays shown while it is there, and the first takes its place.
pub proof fn the_shown_host_stays(hosts: Seq<ProfileModel>, selected: Option<Id>)
    ensures
        selected is Some && host_with_id(hosts, selected->0) is Some ==> next_shown(hosts, selected)
            == selected,
        (selected is None || host_with_id(hosts, selected->0) is None) && hosts.len() > 0
            ==> next_shown(hosts, selected) == Some(hosts[0].id),
        hosts.len() == 0 && selected is None ==> next_shown(hosts, selected) is None,
{
}

/// Saving is refused for the first thing that is wrong: a host that was changed elsewhere, empty
/// fields, bad values, the alias of another host, a password that is missing.
pub proof fn forms_are_refused_for_a_reason(editor: EditorModel, hosts: Seq<ProfileModel>)
    ensures
        !hosts.contains(editor.original) ==> form_objection(editor, hosts) == Some(
            MessageModel::text("host_changed"@),
        ),
        hosts.contains(editor.original) && editor.missing().len() > 0 ==> form_objection(
            editor,
            hosts,
        ) == Some(
            MessageModel::about(
                "validation_required_count"@,
                "count"@,
                decimal(editor.missing().len()),
            ),
        ),
        form_objection(editor, hosts) is None ==> {
            &&& hosts.contains(editor.original)
            &&& editor.missing().len() == 0
            &&& editor.profile.issue() is None
            &&& !editor.lacks_password()
            &&& host_with_id(hosts, editor.profile.id) is Some
            &&& forall|i: int|
                0 <= i < hosts.len() && (#[trigger] hosts[i]).id != editor.profile.id
                    ==> !same_ignoring_case(hosts[i].alias, trimmed(editor.profile.alias))
        },
        editor.profile.issue() is None && alias_of_another(
            hosts,
            editor.profile.id,
            trimmed(editor.profile.alias),
        ) ==> value_objection(editor, hosts) == Some(MessageModel::text("validation_alias"@)),
{
    if form_objection(editor, hosts) is None {
        assert(!alias_of_another(hosts, editor.profile.id, trimmed(editor.profile.alias)));
    }
}

/// The fields that are missing are shown once saving looked for them, and what was typed stays.
pub proof fn missing_fields_are_shown(editor: EditorModel)
    ensures
        editor.missing().len() > 0 ==> marked(editor).show_required && marked(
            editor,
        ).focus_first_missing,
        editor.missing().len() == 0 ==> !marked(editor).show_required,
        marked(editor).profile == editor.profile,
        marked(editor).original == editor.original,
{
}

} // verus!
