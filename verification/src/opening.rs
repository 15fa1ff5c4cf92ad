//! Opening the window: which host it shows, and what it says first.
use vstd::prelude::*;

use crate::actions::is_neutral;
use crate::args::{LaunchOptions, OptionsModel};
use crate::callback::{Callback, CallbackModel};
use crate::editor::{EditorModel, HostEditor, Lookups};
use crate::hosts_app::{
    editor_model, prompt_model, AppModel, FingerprintPrompt, HostsApp, PromptModel,
};
use crate::id::{is_random_id, Id};
use crate::mcp::OwnerCheck;
use crate::message::{Message, MessageModel, Status, StatusModel};
use crate::model::{
    alias_owner, alias_taken, find_alias_index, find_id, host_with_id, models, HostFilter,
    HostProfile, Prefill, PrefillModel, ProfileModel,
};
use crate::probes::{BoardModel, TestBoard};
use crate::removal::{hosts_left, remove_hosts};
use crate::status::StatusKind;
use crate::storage::{HostStore, StoreModel};
use crate::text::{copy_optional, is_blank, optional_text, same_ignoring_case, trimmed};

verus! {

/// The first host that carries an alias.
pub open spec fn owner_of(hosts: Seq<ProfileModel>, alias: Seq<char>) -> Option<Id> {
    if alias_taken(hosts, trimmed(alias)) {
        Some(hosts[choose|at: int| alias_owner(hosts, trimmed(alias), at)].id)
    } else {
        None
    }
}

fn find_owner(hosts: &[HostProfile], alias: &str) -> (r: Option<Id>)
    ensures
        r == owner_of(models(hosts@), alias@),
{
    let ghost all = models(hosts@);
    match find_alias_index(hosts, alias) {
        Some(at) => {
            proof {
                assert(alias_owner(all, trimmed(alias@), at as int));
                let first = choose|i: int| alias_owner(all, trimmed(alias@), i);
                assert(alias_owner(all, trimmed(alias@), first));
                assert(same_ignoring_case(all[first].alias, trimmed(alias@)));
                assert(same_ignoring_case(all[at as int].alias, trimmed(alias@)));
                assert(first == at);
                assert(all[at as int] == hosts@[at as int]@);
            }
            Some(hosts[at].id)
        },
        None => None,
    }
}

/// A profile once what was asked for is filled in.
pub open spec fn filled_in(
    profile: ProfileModel,
    prefill: PrefillModel,
    hosts: Seq<ProfileModel>,
) -> ProfileModel {
    let filled = profile.prefilled(prefill);
    match prefill.jump_alias {
        Some(alias) => ProfileModel { jump_host: owner_of(hosts, alias), ..filled },
        None => filled,
    }
}

fn fill_in(profile: &mut HostProfile, prefill: &Prefill, hosts: &[HostProfile])
    ensures
        final(profile)@ == filled_in(old(profile)@, prefill@, models(hosts@)),
{
    profile.apply_prefill(prefill);
    if let Some(alias) = &prefill.jump_alias {
        profile.jump_host = find_owner(hosts, alias.as_str());
    }
}

/// The store as it was read, the host that is shown, the host that was created for it, and what
/// went wrong.
#[derive(Debug)]
pub struct Opening {
    pub store: HostStore,
    pub selected: Option<Id>,
    pub created: Option<Id>,
    pub error: Option<String>,
}

#[verifier::ext_equal]
pub struct OpeningModel {
    pub store: StoreModel,
    pub selected: Option<Id>,
    pub created: Option<Id>,
    pub error: Option<Seq<char>>,
}

impl View for Opening {
    type V = OpeningModel;

    open spec fn view(&self) -> OpeningModel {
        OpeningModel {
            store: self.store@,
            selected: self.selected,
            created: self.created,
            error: optional_text(self.error),
        }
    }
}

/// The alias that was asked for, if it says anything.
pub open spec fn asked_alias(launch: OptionsModel) -> Option<Seq<char>> {
    match launch.prefill.alias {
        Some(alias) => if trimmed(alias).len() > 0 {
            Some(alias)
        } else {
            None
        },
        None => None,
    }
}

/// What is done about the host with an alias: an existing one is shown, one whose key is to be
/// trusted must exist, and any other is drafted, to be saved before it is shown.
pub open spec fn chosen(
    before: OpeningModel,
    launch: OptionsModel,
    alias: Seq<char>,
    after: OpeningModel,
    drafted: bool,
) -> bool {
    let hosts = before.store.hosts;
    match owner_of(hosts, alias) {
        Some(id) => !drafted && after == (OpeningModel { selected: Some(id), ..before }),
        None => if launch.observed_fingerprint is Some {
            !drafted && after == (OpeningModel {
                selected: None,
                error: Some("HOST_NOT_FOUND: "@ + alias),
                ..before
            })
        } else {
            &&& drafted
            &&& after.created is Some
            &&& after == (OpeningModel {
                store: StoreModel {
                    hosts: hosts.push(
                        filled_in(
                            ProfileModel { alias, ..ProfileModel::blank(after.created->0) },
                            launch.prefill,
                            hosts,
                        ),
                    ),
                    ..before.store
                },
                created: after.created,
                ..before
            })
        },
    }
}

/// What the window says first.
pub open spec fn first_status(
    error: Option<Seq<char>>,
    owner: OwnerCheck,
    repair_hint: Seq<char>,
    codex_edit: bool,
) -> StatusModel {
    match error {
        Some(error) => StatusModel::error(
            MessageModel::about("storage_error"@, "error"@, error),
        ),
        None => match owner {
            OwnerCheck::Mismatch { owner, .. } => StatusModel {
                kind: StatusKind::Warning,
                message: MessageModel::about_both(
                    "store_owner_warning"@,
                    "owner"@,
                    owner@,
                    "command"@,
                    repair_hint,
                ),
            },
            OwnerCheck::Unavailable(reason) => StatusModel {
                kind: StatusKind::Warning,
                message: MessageModel::about("store_owner_unavailable"@, "error"@, reason@),
            },
            OwnerCheck::Owned => StatusModel {
                kind: StatusKind::Info,
                message: MessageModel::text(
                    if codex_edit {
                        "draft_waiting"@
                    } else {
                        "status_ready"@
                    },
                ),
            },
        },
    }
}

fn say_first(error: Option<String>, owner: &OwnerCheck, repair_hint: &str, codex_edit: bool) -> (r:
    Status)
    ensures
        r@ == first_status(optional_text(error), *owner, repair_hint@, codex_edit),
{
    if let Some(error) = error {
        return Status::error(Message::about("storage_error", "error", error));
    }
    match owner {
        OwnerCheck::Mismatch { owner, .. } => Status {
            kind: StatusKind::Warning,
            message: Message::about_both(
                "store_owner_warning",
                "owner",
                owner.clone(),
                "command",
                repair_hint.to_owned(),
            ),
        },
        OwnerCheck::Unavailable(reason) => Status {
            kind: StatusKind::Warning,
            message: Message::about("store_owner_unavailable", "error", reason.clone()),
        },
        OwnerCheck::Owned => Status {
            kind: StatusKind::Info,
            message: if codex_edit {
                Message::text("draft_waiting")
            } else {
                Message::text("status_ready")
            },
        },
    }
}

/// The form that the window opens with.
pub open spec fn first_form(
    opening: OpeningModel,
    launch: OptionsModel,
    lookups: Lookups,
) -> Option<EditorModel> {
    if opening.selected is None {
        None
    } else {
        match host_with_id(opening.store.hosts, opening.selected->0) {
            None => None,
            Some(profile) => {
                let form = if opening.created == Some(profile.id) {
                    EditorModel::created(profile, lookups)
                } else {
                    EditorModel::loaded(profile, lookups)
                };
                if launch.codex_edit && launch.observed_fingerprint is None {
                    Some(
                        EditorModel {
                            profile: filled_in(form.profile, launch.prefill, opening.store.hosts),
                            ..form
                        },
                    )
                } else {
                    Some(form)
                }
            },
        }
    }
}

/// The question about a key that the window opens with.
pub open spec fn first_prompt(form: Option<EditorModel>, launch: OptionsModel) -> Option<
    PromptModel,
> {
    match (launch.observed_fingerprint, form) {
        (Some(observed), Some(form)) => Some(
            PromptModel {
                host_id: form.profile.id,
                alias: form.profile.alias,
                expected: form.profile.host_fingerprint,
                observed,
                expected_algorithm: form.profile.host_key_algorithm,
                observed_algorithm: launch.observed_algorithm,
                retry_test: false,
                close_after_choice: true,
            },
        ),
        _ => None,
    }
}

impl Opening {
    /// Begins with the store as it was read, or with one that may not be written.
    pub fn begin(loaded: Result<HostStore, String>) -> (r: Self)
        ensures
            r@ == match loaded {
                Ok(store) => OpeningModel {
                    store: store@,
                    selected: crate::actions::first_id(store@.hosts),
                    created: None,
                    error: None,
                },
                Err(error) => OpeningModel {
                    store: StoreModel { write_blocked: Some(error@), ..StoreModel::empty() },
                    selected: None,
                    created: None,
                    error: Some(error@),
                },
            },
    {
        match loaded {
            Ok(store) => {
                let selected = if store.hosts.len() > 0 {
                    assert(store@.hosts[0] == store.hosts@[0]@);
                    Some(store.hosts[0].id)
                } else {
                    None
                };
                Opening { store, selected, created: None, error: None }
            },
            Err(error) => Opening {
                store: HostStore::blocked(error.as_str()),
                selected: None,
                created: None,
                error: Some(error),
            },
        }
    }

    fn choose_alias(&mut self, launch: &LaunchOptions, alias: String) -> (r: bool)
        ensures
            chosen(old(self)@, launch@, alias@, final(self)@, r),
            r ==> final(self)@.created is Some && is_random_id(final(self)@.created->0.value),
    {
        if let Some(id) = find_owner(self.store.hosts.as_slice(), alias.as_str()) {
            self.selected = Some(id);
            return false;
        }
        if launch.observed_fingerprint.is_some() {
            let mut text = "HOST_NOT_FOUND: ".to_owned();
            text.append(alias.as_str());
            self.selected = None;
            self.error = Some(text);
            return false;
        }
        let mut draft = HostProfile::new(alias);
        fill_in(&mut draft, &launch.prefill, self.store.hosts.as_slice());
        self.created = Some(draft.id);
        let ghost profile = draft@;
        self.store.hosts.push(draft);
        assert(models(self.store.hosts@) =~= old(self)@.store.hosts.push(profile));
        true
    }

    /// Chooses the host that someone asked to edit. Whether a draft has to be saved is returned.
    pub fn choose_host(&mut self, launch: &LaunchOptions) -> (r: bool)
        requires
            old(self)@.store.hosts.len() < u32::MAX,
        ensures
            if !launch@.codex_edit || old(self)@.error is Some {
                final(self)@ == old(self)@ && !r
            } else {
                exists|alias: Seq<char>|
                    (match asked_alias(launch@) {
                        Some(asked) => alias == asked,
                        None => is_neutral(old(self)@.store.hosts, alias),
                    }) && #[trigger] chosen(old(self)@, launch@, alias, final(self)@, r)
            },
            r ==> final(self)@.created is Some && is_random_id(final(self)@.created->0.value),
    {
        if !launch.codex_edit || self.error.is_some() {
            return false;
        }
        let asked = match &launch.prefill.alias {
            Some(alias) => if is_blank(alias.as_str()) {
                None
            } else {
                Some(alias.clone())
            },
            None => None,
        };
        let alias = match asked {
            Some(alias) => alias,
            None => self.store.next_neutral_alias(),
        };
        let drafted = self.choose_alias(launch, alias);
        assert(chosen(old(self)@, launch@, alias@, self@, drafted));
        drafted
    }

    /// Takes in how saving the draft went. If it failed, the draft is gone again.
    pub fn draft_saved(&mut self, failure: Option<String>)
        requires
            old(self)@.created is Some,
        ensures
            final(self)@ == match failure {
                None => OpeningModel { selected: old(self)@.created, ..old(self)@ },
                Some(error) => OpeningModel {
                    store: StoreModel {
                        hosts: hosts_left(old(self)@.store.hosts, seq![old(self)@.created->0]),
                        ..old(self)@.store
                    },
                    selected: None,
                    created: None,
                    error: Some(error@),
                },
            },
    {
        match failure {
            None => {
                self.selected = self.created;
            },
            Some(error) => {
                let mut gone: Vec<Id> = Vec::new();
                if let Some(id) = self.created {
                    gone.push(id);
                }
                assert(gone@ =~= seq![old(self)@.created->0]);
                let hosts = crate::storage::copy_hosts(self.store.hosts.as_slice());
                self.store.hosts = remove_hosts(hosts, &gone);
                self.selected = None;
                self.created = None;
                self.error = Some(error);
            },
        }
    }

    fn open_form(&self, launch: &LaunchOptions, lookups: Lookups) -> (r: Option<HostEditor>)
        ensures
            editor_model(r) == first_form(self@, launch@, lookups),
    {
        let id = match self.selected {
            None => {
                return None;
            },
            Some(id) => id,
        };
        let at = match find_id(self.store.hosts.as_slice(), id) {
            None => {
                return None;
            },
            Some(at) => at,
        };
        let profile = self.store.hosts[at].clone();
        assert(self@.store.hosts[at as int] == profile@);
        let created = match self.created {
            Some(created) => created == profile.id,
            None => false,
        };
        let mut form = if created {
            HostEditor::fresh(profile, lookups)
        } else {
            HostEditor::load(profile, lookups)
        };
        if launch.codex_edit && launch.observed_fingerprint.is_none() {
            fill_in(&mut form.profile, &launch.prefill, self.store.hosts.as_slice());
        }
        Some(form)
    }

    /// Opens the window. The secrets that `lookups` tells of are those of the selected host.
    pub fn finish(
        self,
        launch: LaunchOptions,
        lookups: Lookups,
        owner: &OwnerCheck,
        repair_hint: &str,
        tray_available: bool,
    ) -> (r: HostsApp)
        ensures
            r@ == opened(self@, launch@, lookups, *owner, repair_hint@, tray_available, r.host_filter),
            r.host_filter.search@.len() == 0,
            r.host_filter.tags@.len() == 0,
    {
        let editor = self.open_form(&launch, lookups);
        let fingerprint_prompt = ask_first(&editor, &launch);
        let status = say_first(self.error, owner, repair_hint, launch.codex_edit);
        let callback = Callback::new(copy_optional(&launch.result_path));
        let r = HostsApp {
            exiting: false,
            hidden: false,
            tray_available,
            host_refresh_pending: false,
            store: self.store,
            selected: self.selected,
            editor,
            status,
            board: TestBoard::new(),
            fingerprint_prompt,
            delete_prompt: false,
            persistence_prompt: None,
            import_window_open: false,
            import_cleanup_prompt: None,
            batch_mode: false,
            batch_selected: Vec::new(),
            host_filter: HostFilter { search: String::new(), tags: Vec::new() },
            batch_delete_prompt: false,
            batch_export_window_open: false,
            scroll_to_selected: true,
            launch,
            callback,
        };
        assert(r@ =~= opened(
            self@,
            launch@,
            lookups,
            *owner,
            repair_hint@,
            tray_available,
            r.host_filter,
        ));
        r
    }
}

fn ask_first(editor: &Option<HostEditor>, launch: &LaunchOptions) -> (r: Option<FingerprintPrompt>)
    ensures
        prompt_model(r) == first_prompt(editor_model(*editor), launch@),
{
    match (&launch.observed_fingerprint, editor) {
        (Some(observed), Some(editor)) => {
            let prompt = FingerprintPrompt {
                host_id: editor.profile.id,
                alias: editor.profile.alias.clone(),
                expected: copy_optional(&editor.profile.host_fingerprint),
                observed: observed.clone(),
                expected_algorithm: copy_optional(&editor.profile.host_key_algorithm),
                observed_algorithm: copy_optional(&launch.observed_algorithm),
                retry_test: false,
                close_after_choice: true,
            };
            assert(prompt@ =~= first_prompt(Some(editor@), launch@)->0);
            Some(prompt)
        },
        _ => None,
    }
}

/// The window as it is opened.
pub open spec fn opened(
    opening: OpeningModel,
    launch: OptionsModel,
    lookups: Lookups,
    owner: OwnerCheck,
    repair_hint: Seq<char>,
    tray_available: bool,
    host_filter: HostFilter,
) -> AppModel {
    let form = first_form(opening, launch, lookups);
    AppModel {
        exiting: false,
        hidden: false,
        tray_available,
        host_refresh_pending: false,
        store: opening.store,
        selected: opening.selected,
        editor: form,
        status: first_status(opening.error, owner, repair_hint, launch.codex_edit),
        board: BoardModel::empty(),
        fingerprint_prompt: first_prompt(form, launch),
        delete_prompt: false,
        persistence_prompt: None,
        import_window_open: false,
        import_cleanup_prompt: None,
        batch_mode: false,
        batch_selected: Seq::empty(),
        host_filter,
        batch_delete_prompt: false,
        batch_export_window_open: false,
        scroll_to_selected: true,
        launch,
        callback: CallbackModel { written: false, pending: None, result_path: launch.result_path },
    }
}

/// A window that was opened to have a host key trusted asks about it and fills in nothing: what
/// it would save is what is stored.
pub proof fn trust_windows_change_nothing_else(
    opening: OpeningModel,
    launch: OptionsModel,
    lookups: Lookups,
)
    requires
        launch.observed_fingerprint is Some,
        opening.created is None,
        first_form(opening, launch, lookups) is Some,
    ensures
        first_form(opening, launch, lookups)->0.profile == first_form(
            opening,
            launch,
            lookups,
        )->0.original,
        first_prompt(first_form(opening, launch, lookups), launch) is Some,
{
}

/// A window that was opened to have a host key trusted creates no host.
pub proof fn trust_windows_create_nothing(
    opening: OpeningModel,
    launch: OptionsModel,
    alias: Seq<char>,
    after: OpeningModel,
    drafted: bool,
)
    requires
        launch.observed_fingerprint is Some,
        chosen(opening, launch, alias, after, drafted),
    ensures
        !drafted,
        after.created == opening.created,
        after.store == opening.store,
{
}

/// A host that has the alias is shown as it is; otherwise a new one is drafted behind the others,
/// unless a key is to be trusted.
pub proof fn the_asked_host_is_shown(
    before: OpeningModel,
    launch: OptionsModel,
    alias: Seq<char>,
    after: OpeningModel,
    drafted: bool,
)
    requires
        chosen(before, launch, alias, after, drafted),
    ensures
        owner_of(before.store.hosts, alias) is Some ==> after.selected == owner_of(
            before.store.hosts,
            alias,
        ) && after.store == before.store && !drafted,
        drafted ==> {
            &&& owner_of(before.store.hosts, alias) is None
            &&& after.created is Some
            &&& after.store.hosts.len() == before.store.hosts.len() + 1
            &&& after.store.hosts.drop_last() == before.store.hosts
            &&& after.store.hosts.last().id == after.created->0
            &&& launch.prefill.port is Some ==> after.store.hosts.last().port
                == launch.prefill.port->0
        },
        owner_of(before.store.hosts, alias) is None && launch.observed_fingerprint is None
            ==> drafted,
        owner_of(before.store.hosts, alias) is None && launch.observed_fingerprint is Some
            ==> after.selected is None && after.error == Some("HOST_NOT_FOUND: "@ + alias),
{
    if drafted {
        assert(after.store.hosts.drop_last() =~= before.store.hosts);
    }
}

/// The host through which a filled-in host is reached is the one with the alias that was named.
pub proof fn jump_hosts_are_filled_in(
    profile: ProfileModel,
    prefill: PrefillModel,
    hosts: Seq<ProfileModel>,
)
    ensures
        prefill.jump_alias matches Some(alias) ==> filled_in(profile, prefill, hosts).jump_host
            == owner_of(hosts, alias),
        prefill.jump_alias is None ==> filled_in(profile, prefill, hosts).jump_host
            == profile.jump_host,
        filled_in(profile, prefill, hosts).id == profile.id,
{
}

/// The window says first what went wrong with the store, else who owns it, and else whether a
/// draft waits.
pub proof fn trouble_is_said_first(
    error: Option<Seq<char>>,
    owner: OwnerCheck,
    repair_hint: Seq<char>,
    codex_edit: bool,
)
    ensures
        error is Some ==> first_status(error, owner, repair_hint, codex_edit).kind
            == StatusKind::Error && first_status(error, owner, repair_hint, codex_edit).message
            == MessageModel::about("storage_error"@, "error"@, error->0),
        error is None && !(owner is Owned) ==> first_status(
            error,
            owner,
            repair_hint,
            codex_edit,
        ).kind == StatusKind::Warning,
        error is None && owner is Owned ==> first_status(
            error,
            owner,
            repair_hint,
            codex_edit,
        ).kind == StatusKind::Info,
        error is None && owner is Owned && codex_edit ==> first_status(
            error,
            owner,
            repair_hint,
            codex_edit,
        ).message == MessageModel::text("draft_waiting"@),
        error is None && owner is Owned && !codex_edit ==> first_status(
            error,
            owner,
            repair_hint,
            codex_edit,
        ).message == MessageModel::text("status_ready"@),
{
}

/// The question about a key shows the key that was seen beside the one that is stored.
pub proof fn questions_show_both_keys(form: EditorModel, launch: OptionsModel)
    requires
        launch.observed_fingerprint is Some,
    ensures
        ({
            let asked = first_prompt(Some(form), launch);
            &&& asked is Some
            &&& asked->0.host_id == form.profile.id
            &&& asked->0.alias == form.profile.alias
            &&& asked->0.observed == launch.observed_fingerprint->0
            &&& asked->0.expected == form.profile.host_fingerprint
            &&& asked->0.observed_algorithm == launch.observed_algorithm
            &&& asked->0.expected_algorithm == form.profile.host_key_algorithm
            &&& asked->0.close_after_choice
            &&& !asked->0.retry_test
        }),
{
}

/// A window without a question about a key asks none, and it opens in sight with the hosts that
/// were read.
pub proof fn windows_open_in_sight(
    opening: OpeningModel,
    launch: OptionsModel,
    lookups: Lookups,
    owner: OwnerCheck,
    repair_hint: Seq<char>,
    tray_available: bool,
    host_filter: HostFilter,
)
    ensures
        ({
            let app = opened(
                opening,
                launch,
                lookups,
                owner,
                repair_hint,
                tray_available,
                host_filter,
            );
            &&& !app.exiting && !app.hidden && !app.delete_prompt && !app.batch_mode
            &&& app.store == opening.store
            &&& app.selected == opening.selected
            &&& app.tray_available == tray_available
            &&& app.launch == launch
            &&& app.callback.result_path == launch.result_path
            &&& !app.callback.written
            &&& launch.observed_fingerprint is None ==> app.fingerprint_prompt is None
            &&& opening.selected is None ==> app.editor is None
        }),
{
}

} // verus!
