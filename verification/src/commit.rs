//! Writing an edited host: its secret and its profile are written in an order in which a failure
//! can be taken back.
use vstd::prelude::*;

use crate::message::{Message, MessageModel};
use crate::text::optional_text;

verus! {

/// The next thing to do.
#[derive(Debug, Clone, Copy, PartialEq, Eq, Structural)]
pub enum CommitPhase {
    /// Read the secret that is stored now.
    Snapshot,
    /// Store the new secret; the old one is known.
    StoreSecretFirst,
    /// Save the hosts; the new secret is stored.
    SaveHostsSecond,
    /// Put the old secret back.
    RestoreSecret,
    /// Save the hosts; the old secret could not be read.
    SaveHostsFirst,
    /// Store the new secret; the hosts are saved.
    StoreSecretSecond,
    /// Save the hosts as they were.
    RestoreHosts,
    /// Save the hosts; there is no secret to store.
    SaveHosts,
    Done,
    Failed,
}

/// A commit that is under way, why it fails if it does, and what undoing it ran into.
#[derive(Debug)]
pub struct Commit {
    pub phase: CommitPhase,
    pub cause: String,
    pub secret_failed: bool,
    pub rollback: Option<String>,
}

#[verifier::ext_equal]
pub struct CommitModel {
    pub phase: CommitPhase,
    pub cause: Seq<char>,
    pub secret_failed: bool,
    pub rollback: Option<Seq<char>>,
}

impl View for Commit {
    type V = CommitModel;

    open spec fn view(&self) -> CommitModel {
        CommitModel {
            phase: self.phase,
            cause: self.cause@,
            secret_failed: self.secret_failed,
            rollback: optional_text(self.rollback),
        }
    }
}

impl CommitModel {
    pub open spec fn first(has_secret: bool) -> CommitModel {
        CommitModel {
            phase: if has_secret {
                CommitPhase::Snapshot
            } else {
                CommitPhase::SaveHosts
            },
            cause: Seq::empty(),
            secret_failed: false,
            rollback: None,
        }
    }

    pub open spec fn at(self, phase: CommitPhase) -> CommitModel {
        CommitModel { phase, ..self }
    }

    /// Storing the secret or saving the hosts failed.
    pub open spec fn stopped(
        self,
        phase: CommitPhase,
        secret_failed: bool,
        cause: Seq<char>,
    ) -> CommitModel {
        CommitModel { phase, cause, secret_failed, ..self }
    }

    /// What follows a step. `failure` says why the step failed, if it did.
    pub open spec fn after(self, failure: Option<Seq<char>>) -> CommitModel {
        match (self.phase, failure) {
            (CommitPhase::Snapshot, None) => self.at(CommitPhase::StoreSecretFirst),
            (CommitPhase::Snapshot, Some(_)) => self.at(CommitPhase::SaveHostsFirst),
            (CommitPhase::StoreSecretFirst, None) => self.at(CommitPhase::SaveHostsSecond),
            (CommitPhase::StoreSecretFirst, Some(error)) => self.stopped(
                CommitPhase::Failed,
                true,
                error,
            ),
            (CommitPhase::SaveHostsSecond, None) => self.at(CommitPhase::Done),
            (CommitPhase::SaveHostsSecond, Some(error)) => self.stopped(
                CommitPhase::RestoreSecret,
                false,
                error,
            ),
            (CommitPhase::RestoreSecret, None) => self.at(CommitPhase::Failed),
            (CommitPhase::RestoreSecret, Some(error)) => CommitModel {
                phase: CommitPhase::Failed,
                rollback: Some(error),
                ..self
            },
            (CommitPhase::SaveHostsFirst, None) => self.at(CommitPhase::StoreSecretSecond),
            (CommitPhase::SaveHostsFirst, Some(error)) => self.stopped(
                CommitPhase::Failed,
                false,
                error,
            ),
            (CommitPhase::StoreSecretSecond, None) => self.at(CommitPhase::Done),
            (CommitPhase::StoreSecretSecond, Some(error)) => self.stopped(
                CommitPhase::RestoreHosts,
                true,
                error,
            ),
            (CommitPhase::RestoreHosts, None) => self.at(CommitPhase::Failed),
            (CommitPhase::RestoreHosts, Some(error)) => CommitModel {
                phase: CommitPhase::Failed,
                rollback: Some("host metadata: "@ + error),
                ..self
            },
            (CommitPhase::SaveHosts, None) => self.at(CommitPhase::Done),
            (CommitPhase::SaveHosts, Some(error)) => self.stopped(
                CommitPhase::Failed,
                false,
                error,
            ),
            (CommitPhase::Done, _) => self,
            (CommitPhase::Failed, _) => self,
        }
    }

    /// What the user is told of the failure.
    pub open spec fn complaint(self) -> MessageModel {
        MessageModel::failed(
            if self.secret_failed {
                "credential_error"@
            } else {
                "storage_error"@
            },
            self.cause,
            self.rollback,
        )
    }
}

impl Commit {
    pub fn first(has_secret: bool) -> (r: Self)
        ensures
            r@ == CommitModel::first(has_secret),
    {
        let r = Commit {
            phase: if has_secret {
                CommitPhase::Snapshot
            } else {
                CommitPhase::SaveHosts
            },
            cause: String::new(),
            secret_failed: false,
            rollback: None,
        };
        assert(r@ =~= CommitModel::first(has_secret));
        r
    }

    fn stop(&mut self, phase: CommitPhase, secret_failed: bool, cause: String)
        ensures
            final(self)@ == old(self)@.stopped(phase, secret_failed, cause@),
    {
        self.phase = phase;
        self.secret_failed = secret_failed;
        self.cause = cause;
    }

    /// Notes how a step went.
    pub fn step(&mut self, failure: Option<String>)
        ensures
            final(self)@ == old(self)@.after(optional_text(failure)),
    {
        match failure {
            None => {
                self.phase = match self.phase {
                    CommitPhase::Snapshot => CommitPhase::StoreSecretFirst,
                    CommitPhase::StoreSecretFirst => CommitPhase::SaveHostsSecond,
                    CommitPhase::SaveHostsSecond => CommitPhase::Done,
                    CommitPhase::RestoreSecret => CommitPhase::Failed,
                    CommitPhase::SaveHostsFirst => CommitPhase::StoreSecretSecond,
                    CommitPhase::StoreSecretSecond => CommitPhase::Done,
                    CommitPhase::RestoreHosts => CommitPhase::Failed,
                    CommitPhase::SaveHosts => CommitPhase::Done,
                    CommitPhase::Done => CommitPhase::Done,
                    CommitPhase::Failed => CommitPhase::Failed,
                };
            },
            Some(error) => match self.phase {
                CommitPhase::Snapshot => {
                    self.phase = CommitPhase::SaveHostsFirst;
                },
                CommitPhase::StoreSecretFirst => {
                    self.stop(CommitPhase::Failed, true, error);
                },
                CommitPhase::SaveHostsSecond => {
                    self.stop(CommitPhase::RestoreSecret, false, error);
                },
                CommitPhase::RestoreSecret => {
                    self.phase = CommitPhase::Failed;
                    self.rollback = Some(error);
                },
                CommitPhase::SaveHostsFirst => {
                    self.stop(CommitPhase::Failed, false, error);
                },
                CommitPhase::StoreSecretSecond => {
                    self.stop(CommitPhase::RestoreHosts, true, error);
                },
                CommitPhase::RestoreHosts => {
                    let mut text = "host metadata: ".to_owned();
                    text.append(error.as_str());
                    self.phase = CommitPhase::Failed;
                    self.rollback = Some(text);
                },
                CommitPhase::SaveHosts => {
                    self.stop(CommitPhase::Failed, false, error);
                },
                CommitPhase::Done => {},
                CommitPhase::Failed => {},
            },
        }
    }

    /// What the user is told of the failure.
    pub fn message(&self) -> (r: Message)
        ensures
            r@ == self@.complaint(),
    {
        let rollback = crate::text::copy_optional(&self.rollback);
        if self.secret_failed {
            Message::failed("credential_error", self.cause.clone(), rollback)
        } else {
            Message::failed("storage_error", self.cause.clone(), rollback)
        }
    }
}

/// What is stored: the old or the new secret, the old or the new hosts.
pub struct Stored {
    pub new_secret: bool,
    pub new_hosts: bool,
}

/// What is stored after a step. A step that fails leaves what is stored as it is.
pub open spec fn stored_after(stored: Stored, phase: CommitPhase, ok: bool) -> Stored {
    if !ok {
        stored
    } else {
        match phase {
            CommitPhase::StoreSecretFirst => Stored { new_secret: true, ..stored },
            CommitPhase::StoreSecretSecond => Stored { new_secret: true, ..stored },
            CommitPhase::SaveHostsFirst => Stored { new_hosts: true, ..stored },
            CommitPhase::SaveHostsSecond => Stored { new_hosts: true, ..stored },
            CommitPhase::SaveHosts => Stored { new_hosts: true, ..stored },
            CommitPhase::RestoreSecret => Stored { new_secret: false, ..stored },
            CommitPhase::RestoreHosts => Stored { new_hosts: false, ..stored },
            _ => stored,
        }
    }
}

/// What is stored fits the state of the commit. In the end either all of it was written, or
/// nothing, or the user is told what could not be taken back.
pub open spec fn consistent(commit: CommitModel, has_secret: bool, stored: Stored) -> bool {
    match commit.phase {
        CommitPhase::Snapshot => has_secret && commit.rollback is None && !stored.new_secret
            && !stored.new_hosts,
        CommitPhase::StoreSecretFirst => has_secret && commit.rollback is None
            && !stored.new_secret && !stored.new_hosts,
        CommitPhase::SaveHostsFirst => has_secret && commit.rollback is None && !stored.new_secret
            && !stored.new_hosts,
        CommitPhase::SaveHosts => !has_secret && commit.rollback is None && !stored.new_secret
            && !stored.new_hosts,
        CommitPhase::SaveHostsSecond => has_secret && commit.rollback is None && stored.new_secret
            && !stored.new_hosts,
        CommitPhase::RestoreSecret => has_secret && commit.rollback is None && stored.new_secret
            && !stored.new_hosts,
        CommitPhase::StoreSecretSecond => has_secret && commit.rollback is None
            && !stored.new_secret && stored.new_hosts,
        CommitPhase::RestoreHosts => has_secret && commit.rollback is None && !stored.new_secret
            && stored.new_hosts,
        CommitPhase::Done => stored.new_hosts && (has_secret ==> stored.new_secret),
        CommitPhase::Failed => commit.rollback is None ==> !stored.new_secret && !stored.new_hosts,
    }
}

/// A commit begins consistently and every step keeps it so, whatever fails on the way.
pub proof fn commits_are_all_or_nothing(
    commit: CommitModel,
    has_secret: bool,
    stored: Stored,
    failure: Option<Seq<char>>,
)
    ensures
        consistent(
            CommitModel::first(has_secret),
            has_secret,
            Stored { new_secret: false, new_hosts: false },
        ),
        consistent(commit, has_secret, stored) ==> consistent(
            commit.after(failure),
            has_secret,
            stored_after(stored, commit.phase, failure is None),
        ),
{
}

/// Steps that are left, at most.
pub open spec fn steps_left(phase: CommitPhase) -> nat {
    match phase {
        CommitPhase::Snapshot => 4,
        CommitPhase::StoreSecretFirst => 3,
        CommitPhase::SaveHostsFirst => 3,
        CommitPhase::SaveHostsSecond => 2,
        CommitPhase::StoreSecretSecond => 2,
        CommitPhase::RestoreSecret => 1,
        CommitPhase::RestoreHosts => 1,
        CommitPhase::SaveHosts => 1,
        CommitPhase::Done => 0,
        CommitPhase::Failed => 0,
    }
}

/// A commit comes to an end.
pub proof fn commits_end(commit: CommitModel, failure: Option<Seq<char>>)
    ensures
        steps_left(commit.phase) > 0 ==> steps_left(commit.after(failure).phase) < steps_left(
            commit.phase,
        ),
{
}

/// A commit in which nothing fails writes everything: the secret, where there is one, and the
/// hosts. Whatever fails first is what the user is told.
pub proof fn commits_succeed_where_nothing_fails(commit: CommitModel, error: Seq<char>)
    ensures
        CommitModel::first(true).after(None).after(None).after(None).phase == CommitPhase::Done,
        CommitModel::first(true).after(Some(error)).after(None).after(None).phase
            == CommitPhase::Done,
        CommitModel::first(false).after(None).phase == CommitPhase::Done,
        CommitModel::first(true).after(None).phase == CommitPhase::StoreSecretFirst,
        commit.phase == CommitPhase::StoreSecretFirst ==> commit.after(Some(error)).phase
            == CommitPhase::Failed && commit.after(Some(error)).cause == error && commit.after(
            Some(error),
        ).secret_failed,
        commit.phase == CommitPhase::SaveHosts ==> commit.after(Some(error)).phase
            == CommitPhase::Failed && commit.after(Some(error)).cause == error && !commit.after(
            Some(error),
        ).secret_failed,
        commit.phase == CommitPhase::SaveHostsSecond ==> commit.after(Some(error)).phase
            == CommitPhase::RestoreSecret && commit.after(Some(error)).cause == error,
        commit.phase == CommitPhase::StoreSecretSecond ==> commit.after(Some(error)).phase
            == CommitPhase::RestoreHosts && commit.after(Some(error)).cause == error,
        commit.phase == CommitPhase::RestoreSecret ==> commit.after(None).phase
            == CommitPhase::Failed && commit.after(None).cause == commit.cause,
        commit.phase == CommitPhase::RestoreHosts ==> commit.after(None).phase
            == CommitPhase::Failed && commit.after(None).cause == commit.cause,
{
}

/// The user is told what failed first, as a failure of the secret or of the store, and what could
/// not be undone.
pub proof fn commit_complaints_name_the_cause(commit: CommitModel)
    ensures
        commit.rollback is None && commit.secret_failed ==> commit.complaint()
            == MessageModel::about("credential_error"@, "error"@, commit.cause),
        commit.rollback is None && !commit.secret_failed ==> commit.complaint()
            == MessageModel::about("storage_error"@, "error"@, commit.cause),
        commit.rollback is Some ==> commit.complaint() is RolledBack,
{
}

} // verus!
