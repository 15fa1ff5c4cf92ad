//! Removing hosts together with their secrets.
use vstd::prelude::*;

use crate::id::{uuid_text, Id};
use crate::message::{rollback_text, with_rollback_error, Message, MessageModel};
use crate::model::{models, HostProfile, ProfileModel};
use crate::pool::holds_id;
use crate::text::{join, joined, optional_text, texts};

verus! {

#[derive(Debug, Clone, Copy, PartialEq, Eq, Structural)]
pub enum RemovalPhase {
    /// Read the secrets of the current host.
    Snapshot,
    /// Delete the secrets of the current host.
    Delete,
    /// Save the hosts that are left.
    Save,
    /// Put back the secrets of the current host, since deleting failed.
    RestoreAfterDelete,
    /// Put back the secrets of the current host, since saving failed.
    RestoreAfterSave,
    /// Save the hosts as they were.
    SaveOriginal,
    Done,
    Failed,
}

/// A removal that is under way: whom it is about, which of them is current, why it fails if it
/// does, and what undoing it ran into.
#[derive(Debug)]
pub struct Removal {
    pub ids: Vec<Id>,
    pub phase: RemovalPhase,
    pub at: usize,
    pub secret_failed: bool,
    pub cause: String,
    pub errors: Vec<String>,
}

#[verifier::ext_equal]
pub struct RemovalModel {
    pub ids: Seq<Id>,
    pub phase: RemovalPhase,
    pub at: int,
    pub secret_failed: bool,
    pub cause: Seq<char>,
    pub errors: Seq<Seq<char>>,
}

impl View for Removal {
    type V = RemovalModel;

    open spec fn view(&self) -> RemovalModel {
        RemovalModel {
            ids: self.ids@,
            phase: self.phase,
            at: self.at as int,
            secret_failed: self.secret_failed,
            cause: self.cause@,
            errors: texts(self.errors@),
        }
    }
}

impl RemovalModel {
    pub open spec fn first(ids: Seq<Id>) -> RemovalModel {
        RemovalModel {
            ids,
            phase: if ids.len() == 0 {
                RemovalPhase::Save
            } else {
                RemovalPhase::Snapshot
            },
            at: 0,
            secret_failed: false,
            cause: Seq::empty(),
            errors: Seq::empty(),
        }
    }

    /// There is a current host where the phase needs one.
    pub open spec fn inv(self) -> bool {
        match self.phase {
            RemovalPhase::Snapshot => 0 <= self.at < self.ids.len(),
            RemovalPhase::Delete => 0 <= self.at < self.ids.len(),
            RemovalPhase::RestoreAfterDelete => 0 <= self.at < self.ids.len(),
            RemovalPhase::RestoreAfterSave => 0 <= self.at < self.ids.len(),
            _ => true,
        }
    }

    /// The next host in the same phase, or the next phase.
    pub open spec fn onward(self, phase: RemovalPhase) -> RemovalModel {
        if self.at + 1 < self.ids.len() {
            RemovalModel { at: self.at + 1, ..self }
        } else {
            RemovalModel { at: 0, phase, ..self }
        }
    }

    /// What follows once putting back a host's secrets was tried.
    pub open spec fn restored(self, failure: Option<Seq<char>>, phase: RemovalPhase) -> RemovalModel {
        let noted = match failure {
            Some(error) => RemovalModel {
                errors: self.errors.push(uuid_text(self.ids[self.at].value) + ": "@ + error),
                ..self
            },
            None => self,
        };
        noted.onward(phase)
    }

    pub open spec fn stopped(
        self,
        phase: RemovalPhase,
        secret_failed: bool,
        cause: Seq<char>,
    ) -> RemovalModel {
        RemovalModel { phase, at: 0, secret_failed, cause, ..self }
    }

    /// What follows a step. `failure` says why the step failed, if it did.
    pub open spec fn after(self, failure: Option<Seq<char>>) -> RemovalModel {
        match (self.phase, failure) {
            (RemovalPhase::Snapshot, None) => self.onward(RemovalPhase::Delete),
            (RemovalPhase::Snapshot, Some(error)) => self.stopped(
                RemovalPhase::Failed,
                true,
                error,
            ),
            (RemovalPhase::Delete, None) => self.onward(RemovalPhase::Save),
            (RemovalPhase::Delete, Some(error)) => self.stopped(
                RemovalPhase::RestoreAfterDelete,
                true,
                error,
            ),
            (RemovalPhase::Save, None) => RemovalModel { phase: RemovalPhase::Done, ..self },
            (RemovalPhase::Save, Some(error)) => self.stopped(
                if self.ids.len() == 0 {
                    RemovalPhase::SaveOriginal
                } else {
                    RemovalPhase::RestoreAfterSave
                },
                false,
                error,
            ),
            (RemovalPhase::RestoreAfterDelete, _) => self.restored(failure, RemovalPhase::Failed),
            (RemovalPhase::RestoreAfterSave, _) => self.restored(
                failure,
                RemovalPhase::SaveOriginal,
            ),
            (RemovalPhase::SaveOriginal, None) => RemovalModel {
                phase: RemovalPhase::Failed,
                ..self
            },
            (RemovalPhase::SaveOriginal, Some(error)) => RemovalModel {
                phase: RemovalPhase::Failed,
                errors: self.errors.push("host metadata: "@ + error),
                ..self
            },
            (RemovalPhase::Done, _) => self,
            (RemovalPhase::Failed, _) => self,
        }
    }

    /// What the user is told of the failure.
    pub open spec fn complaint(self) -> MessageModel {
        MessageModel::about(
            if self.secret_failed {
                "credential_error"@
            } else {
                "storage_error"@
            },
            "error"@,
            rollback_text(
                self.cause,
                if self.errors.len() == 0 {
                    None
                } else {
                    Some(joined(self.errors, "; "@))
                },
            ),
        )
    }
}

impl Removal {
    pub fn first(ids: Vec<Id>) -> (r: Self)
        ensures
            r@ == RemovalModel::first(ids@),
            r@.inv(),
    {
        let r = Removal {
            phase: if ids.len() == 0 {
                RemovalPhase::Save
            } else {
                RemovalPhase::Snapshot
            },
            ids,
            at: 0,
            secret_failed: false,
            cause: String::new(),
            errors: Vec::new(),
        };
        assert(r@ =~= RemovalModel::first(ids@));
        r
    }

    /// The host that the step is about, if it is about one.
    pub fn current(&self) -> (r: Option<Id>)
        ensures
            r == if 0 <= self@.at < self@.ids.len() {
                Some(self@.ids[self@.at])
            } else {
                None
            },
    {
        if self.at < self.ids.len() {
            Some(self.ids[self.at])
        } else {
            None
        }
    }

    fn advance(&mut self, phase: RemovalPhase)
        requires
            old(self)@.at < old(self)@.ids.len(),
        ensures
            final(self)@ == old(self)@.onward(phase),
    {
        if self.at < self.ids.len() - 1 {
            self.at = self.at + 1;
        } else {
            self.at = 0;
            self.phase = phase;
        }
    }

    fn stop(&mut self, phase: RemovalPhase, secret_failed: bool, cause: String)
        ensures
            final(self)@ == old(self)@.stopped(phase, secret_failed, cause@),
    {
        self.phase = phase;
        self.at = 0;
        self.secret_failed = secret_failed;
        self.cause = cause;
    }

    fn note(&mut self, text: String)
        ensures
            final(self)@ == (RemovalModel { errors: old(self)@.errors.push(text@), ..old(self)@ }),
    {
        self.errors.push(text);
        assert(texts(self.errors@) =~= old(self)@.errors.push(text@));
    }

    fn restore_done(&mut self, failure: Option<String>, phase: RemovalPhase)
        requires
            0 <= old(self)@.at < old(self)@.ids.len(),
        ensures
            final(self)@ == old(self)@.restored(optional_text(failure), phase),
    {
        if let Some(error) = failure {
            let mut text = self.ids[self.at].text();
            text.append(": ");
            text.append(error.as_str());
            self.note(text);
        }
        self.advance(phase);
    }

    /// Notes how a step went.
    pub fn step(&mut self, failure: Option<String>)
        requires
            old(self)@.inv(),
        ensures
            final(self)@ == old(self)@.after(optional_text(failure)),
            final(self)@.inv(),
    {
        match self.phase {
            RemovalPhase::Snapshot => match failure {
                None => self.advance(RemovalPhase::Delete),
                Some(error) => self.stop(RemovalPhase::Failed, true, error),
            },
            RemovalPhase::Delete => match failure {
                None => self.advance(RemovalPhase::Save),
                Some(error) => self.stop(RemovalPhase::RestoreAfterDelete, true, error),
            },
            RemovalPhase::Save => match failure {
                None => {
                    self.phase = RemovalPhase::Done;
                },
                Some(error) => {
                    if self.ids.len() == 0 {
                        self.stop(RemovalPhase::SaveOriginal, false, error);
                    } else {
                        self.stop(RemovalPhase::RestoreAfterSave, false, error);
                    }
                },
            },
            RemovalPhase::RestoreAfterDelete => self.restore_done(failure, RemovalPhase::Failed),
            RemovalPhase::RestoreAfterSave => self.restore_done(
                failure,
                RemovalPhase::SaveOriginal,
            ),
            RemovalPhase::SaveOriginal => {
                if let Some(error) = failure {
                    let mut text = "host metadata: ".to_owned();
                    text.append(error.as_str());
                    self.note(text);
                }
                self.phase = RemovalPhase::Failed;
            },
            RemovalPhase::Done => {},
            RemovalPhase::Failed => {},
        }
    }

    /// What the user is told of the failure.
    pub fn message(&self) -> (r: Message)
        ensures
            r@ == self@.complaint(),
    {
        let rollback = if self.errors.len() == 0 {
            None
        } else {
            Some(join(&self.errors, "; "))
        };
        let error = with_rollback_error(self.cause.clone(), rollback);
        if self.secret_failed {
            Message::about("credential_error", "error", error)
        } else {
            Message::about("storage_error", "error", error)
        }
    }
}

/// What is stored of each host's secrets, and whether the hosts are stored as they were.
pub struct Vault {
    pub secrets: Map<Id, int>,
    pub hosts: int,
}

/// What may be stored after a step. Deleting or saving that fails may have done part of its
/// work; putting something back that succeeds leaves it as it was.
pub open spec fn may_follow(
    before: Vault,
    vault: Vault,
    removal: RemovalModel,
    ok: bool,
    next: Vault,
) -> bool {
    match removal.phase {
        RemovalPhase::Snapshot => next == vault,
        RemovalPhase::Delete => next.hosts == vault.hosts && others_keep(
            vault.secrets,
            next.secrets,
            removal.ids[removal.at],
        ),
        RemovalPhase::Save => next.secrets == vault.secrets,
        RemovalPhase::RestoreAfterDelete => next.hosts == vault.hosts && put_back(
            before,
            vault,
            removal,
            ok,
            next,
        ),
        RemovalPhase::RestoreAfterSave => next.hosts == vault.hosts && put_back(
            before,
            vault,
            removal,
            ok,
            next,
        ),
        RemovalPhase::SaveOriginal => next.secrets == vault.secrets && (ok ==> next.hosts
            == before.hosts),
        RemovalPhase::Done => next == vault,
        RemovalPhase::Failed => next == vault,
    }
}

pub open spec fn others_keep(a: Map<Id, int>, b: Map<Id, int>, id: Id) -> bool {
    forall|other: Id| other != id ==> #[trigger] b[other] == a[other]
}

pub open spec fn put_back(
    before: Vault,
    vault: Vault,
    removal: RemovalModel,
    ok: bool,
    next: Vault,
) -> bool {
    let id = removal.ids[removal.at];
    others_keep(vault.secrets, next.secrets, id) && (ok ==> next.secrets[id] == before.secrets[id])
}

/// The secrets of all hosts but those still to be dealt with are as they were.
pub open spec fn kept_but(before: Vault, vault: Vault, ids: Seq<Id>, from: int) -> bool {
    forall|id: Id|
        (forall|i: int| from <= i < ids.len() ==> #[trigger] ids[i] != id)
            ==> #[trigger] vault.secrets[id] == before.secrets[id]
}

/// What is stored fits the state of the removal. A removal that failed has taken back all it did,
/// or says what it could not take back; hosts that it is not about are never touched.
pub open spec fn sound(before: Vault, vault: Vault, removal: RemovalModel) -> bool {
    &&& removal.inv()
    &&& forall|id: Id|
        !removal.ids.contains(id) ==> #[trigger] vault.secrets[id] == before.secrets[id]
    &&& match removal.phase {
        RemovalPhase::Snapshot => removal.errors.len() == 0 && vault.hosts == before.hosts
            && kept_but(before, vault, removal.ids, removal.ids.len() as int),
        RemovalPhase::Delete => removal.errors.len() == 0 && vault.hosts == before.hosts,
        RemovalPhase::Save => removal.errors.len() == 0 && vault.hosts == before.hosts,
        RemovalPhase::RestoreAfterDelete => vault.hosts == before.hosts && (removal.errors.len()
            == 0 ==> kept_but(before, vault, removal.ids, removal.at)),
        RemovalPhase::RestoreAfterSave => removal.errors.len() == 0 ==> kept_but(
            before,
            vault,
            removal.ids,
            removal.at,
        ),
        RemovalPhase::SaveOriginal => removal.errors.len() == 0 ==> kept_but(
            before,
            vault,
            removal.ids,
            removal.ids.len() as int,
        ),
        RemovalPhase::Done => true,
        RemovalPhase::Failed => removal.errors.len() == 0 ==> vault.hosts == before.hosts
            && kept_but(before, vault, removal.ids, removal.ids.len() as int),
    }
}

/// A removal begins soundly and every step keeps it so, whatever fails on the way.
pub proof fn a_failed_removal_is_taken_back(
    before: Vault,
    vault: Vault,
    removal: RemovalModel,
    failure: Option<Seq<char>>,
    next: Vault,
)
    requires
        sound(before, vault, removal),
        may_follow(before, vault, removal, failure is None, next),
    ensures
        sound(before, before, RemovalModel::first(removal.ids)),
        sound(before, next, removal.after(failure)),
{
    let then = removal.after(failure);
    assert forall|id: Id| !then.ids.contains(id) implies #[trigger] next.secrets[id]
        == before.secrets[id] by {
        assert(vault.secrets[id] == before.secrets[id]);
        if 0 <= removal.at < removal.ids.len() {
            assert(removal.ids.contains(removal.ids[removal.at]));
        }
    }
    match removal.phase {
        RemovalPhase::RestoreAfterDelete => {
            lemma_put_back(before, vault, removal, failure, next);
        },
        RemovalPhase::RestoreAfterSave => {
            lemma_put_back(before, vault, removal, failure, next);
        },
        RemovalPhase::Delete => {
            if failure is Some {
                lemma_none_dealt_with(before, next, removal.ids);
            }
        },
        RemovalPhase::Save => {
            if failure is Some {
                lemma_none_dealt_with(before, next, removal.ids);
                if removal.ids.len() == 0 {
                    assert(kept_but(before, next, removal.ids, 0));
                }
            }
        },
        _ => {},
    }
}

/// Before any host's secrets are put back, those of the hosts the removal is not about are as
/// they were.
proof fn lemma_none_dealt_with(before: Vault, vault: Vault, ids: Seq<Id>)
    requires
        forall|id: Id| !ids.contains(id) ==> #[trigger] vault.secrets[id] == before.secrets[id],
    ensures
        kept_but(before, vault, ids, 0),
{
    assert forall|id: Id|
        (forall|i: int| 0 <= i < ids.len() ==> #[trigger] ids[i] != id) implies #[trigger] vault.secrets[id]
        == before.secrets[id] by {
        assert(!ids.contains(id));
    }
}

proof fn lemma_put_back(
    before: Vault,
    vault: Vault,
    removal: RemovalModel,
    failure: Option<Seq<char>>,
    next: Vault,
)
    requires
        0 <= removal.at < removal.ids.len(),
        removal.errors.len() == 0 ==> kept_but(before, vault, removal.ids, removal.at),
        put_back(before, vault, removal, failure is None, next),
    ensures
        removal.errors.len() == 0 && failure is None ==> kept_but(
            before,
            next,
            removal.ids,
            removal.at + 1,
        ),
{
    if removal.errors.len() == 0 && failure is None {
        let current = removal.ids[removal.at];
        assert forall|id: Id|
            (forall|i: int|
                removal.at + 1 <= i < removal.ids.len() ==> #[trigger] removal.ids[i] != id)
            implies #[trigger] next.secrets[id] == before.secrets[id] by {
            if id != current {
                assert(forall|i: int|
                    removal.at <= i < removal.ids.len() ==> #[trigger] removal.ids[i] != id);
                assert(vault.secrets[id] == before.secrets[id]);
            }
        }
    }
}

/// The hosts that are left once some are removed.
pub open spec fn hosts_left(hosts: Seq<ProfileModel>, ids: Seq<Id>) -> Seq<ProfileModel> {
    hosts.filter(|host: ProfileModel| !ids.contains(host.id))
}

/// Removes the hosts with these identities from a list.
pub fn remove_hosts(hosts: Vec<HostProfile>, ids: &Vec<Id>) -> (r: Vec<HostProfile>)
    ensures
        models(r@) == hosts_left(models(hosts@), ids@),
{
    let ghost all = models(hosts@);
    let ghost keep = |host: ProfileModel| !ids@.contains(host.id);
    let mut out: Vec<HostProfile> = Vec::new();
    let mut i: usize = 0;
    assert(models(out@) =~= all.take(0).filter(keep)) by {
        reveal(Seq::filter);
    }
    while i < hosts.len()
        invariant
            i <= hosts@.len(),
            all == models(hosts@),
            keep == (|host: ProfileModel| !ids@.contains(host.id)),
            models(out@) == all.take(i as int).filter(keep),
        decreases hosts@.len() - i,
    {
        assert(all.take(i + 1).drop_last() =~= all.take(i as int));
        assert(all.take(i + 1).last() == hosts@[i as int]@);
        reveal(Seq::filter);
        if !holds_id(ids, hosts[i].id) {
            let ghost so_far = models(out@);
            out.push(hosts[i].clone());
            assert(models(out@) =~= so_far.push(hosts@[i as int]@));
        }
        i = i + 1;
    }
    assert(all.take(i as int) =~= all);
    out
}

/// A removal deals with every host in turn: it looks at the secrets of each, then deletes those of
/// each, then saves the hosts without them. Where nothing fails, it ends with that.
pub proof fn removals_deal_with_every_host(removal: RemovalModel)
    requires
        0 <= removal.at < removal.ids.len(),
    ensures
        RemovalModel::first(removal.ids).phase == RemovalPhase::Snapshot,
        RemovalModel::first(removal.ids).at == 0,
        RemovalModel::first(removal.ids).ids == removal.ids,
        removal.phase == RemovalPhase::Snapshot && removal.at + 1 < removal.ids.len()
            ==> removal.after(None).phase == RemovalPhase::Snapshot && removal.after(None).at
            == removal.at + 1,
        removal.phase == RemovalPhase::Snapshot && removal.at + 1 == removal.ids.len()
            ==> removal.after(None).phase == RemovalPhase::Delete && removal.after(None).at == 0,
        removal.phase == RemovalPhase::Delete && removal.at + 1 < removal.ids.len()
            ==> removal.after(None).phase == RemovalPhase::Delete && removal.after(None).at
            == removal.at + 1,
        removal.phase == RemovalPhase::Delete && removal.at + 1 == removal.ids.len()
            ==> removal.after(None).phase == RemovalPhase::Save,
        removal.phase == RemovalPhase::Save ==> removal.after(None).phase == RemovalPhase::Done,
        removal.after(None).ids == removal.ids,
{
}

/// A removal that fails is not done, and tells what failed first.
pub proof fn failed_removals_tell_why(removal: RemovalModel, error: Seq<char>)
    requires
        removal.phase == RemovalPhase::Snapshot || removal.phase == RemovalPhase::Delete
            || removal.phase == RemovalPhase::Save,
    ensures
        removal.after(Some(error)).phase != RemovalPhase::Done,
        removal.after(Some(error)).cause == error,
        removal.after(Some(error)).secret_failed <==> removal.phase != RemovalPhase::Save,
        removal.phase == RemovalPhase::Delete ==> removal.after(Some(error)).phase
            == RemovalPhase::RestoreAfterDelete,
        removal.phase == RemovalPhase::Save && removal.ids.len() > 0 ==> removal.after(
            Some(error),
        ).phase == RemovalPhase::RestoreAfterSave,
{
}

/// The hosts that are left are those that were not to be removed, all of them, in their order.
pub proof fn other_hosts_are_left(hosts: Seq<ProfileModel>, ids: Seq<Id>, host: ProfileModel)
    ensures
        hosts_left(hosts, ids).contains(host) <==> hosts.contains(host) && !ids.contains(host.id),
        hosts_left(hosts.push(host), ids) == if ids.contains(host.id) {
            hosts_left(hosts, ids)
        } else {
            hosts_left(hosts, ids).push(host)
        },
{
    lemma_left(hosts, ids, host);
    assert(hosts.push(host).drop_last() =~= hosts);
    reveal(Seq::filter);
}

proof fn lemma_left(hosts: Seq<ProfileModel>, ids: Seq<Id>, host: ProfileModel)
    ensures
        hosts_left(hosts, ids).contains(host) <==> hosts.contains(host) && !ids.contains(host.id),
    decreases hosts.len(),
{
    reveal(Seq::filter);
    if hosts.len() > 0 {
        let short = hosts.drop_last();
        let found = hosts_left(hosts, ids);
        let before = hosts_left(short, ids);
        lemma_left(short, ids, host);
        if found.contains(host) {
            let i = choose|i: int| 0 <= i < found.len() && found[i] == host;
            if i < before.len() {
                assert(before[i] == host);
                let k = choose|k: int| 0 <= k < short.len() && short[k] == host;
                assert(hosts[k] == host);
            } else {
                assert(hosts[hosts.len() - 1] == host);
            }
        }
        if hosts.contains(host) && !ids.contains(host.id) {
            let i = choose|i: int| 0 <= i < hosts.len() && hosts[i] == host;
            if i < short.len() {
                assert(short[i] == host);
                let k = choose|k: int| 0 <= k < before.len() && before[k] == host;
                assert(found[k] == host);
            } else {
                assert(found[before.len() as int] == host);
            }
        }
    }
}

/// The user is told what failed first, as a failure of the secrets or of the store, and what could
/// not be put back.
pub proof fn removal_complaints_name_the_cause(removal: RemovalModel)
    ensures
        removal.errors.len() == 0 && removal.secret_failed ==> removal.complaint()
            == MessageModel::about("credential_error"@, "error"@, removal.cause),
        removal.errors.len() == 0 && !removal.secret_failed ==> removal.complaint()
            == MessageModel::about("storage_error"@, "error"@, removal.cause),
        removal.errors.len() > 0 && !removal.secret_failed ==> removal.complaint()
            == MessageModel::about(
            "storage_error"@,
            "error"@,
            removal.cause + "; rollback failed: "@ + joined(removal.errors, "; "@),
        ),
{
}

} // verus!
